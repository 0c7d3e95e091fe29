use depot::commands::setup::GlobalConfig;
use depot::workspace::dep_graph::GraphError;
use depot::workspace::fingerprint::Fingerprints;
use depot::workspace::package::{
    Package, PackageDepotConfig, PackageManifest, PackageName, Platform, RawManifest, Target,
};
use depot::workspace::{find_workspace_root, workspace_root_candidates, CommonArgs, Workspace, WorkspaceError};

fn package(name: &str, deps: &[&str], index: usize) -> Package {
    let raw = RawManifest {
        name: Some(name.to_string()),
        dependencies: deps.iter().map(|d| d.to_string()).collect(),
        dev_dependencies: vec![],
        peer_dependencies: vec![],
        config: Some(PackageDepotConfig { platform: Platform::Browser, target: None, no_server: None }),
    };
    let manifest = PackageManifest::from_json(raw, "package.json").unwrap_or_else(|_| panic!());
    Package::from_parts(format!("/ws/packages/{name}"), manifest, index, Target::Lib).unwrap_or_else(|_| panic!())
}

fn config() -> GlobalConfig {
    GlobalConfig::load("/home/u/.local".into(), true, true, None).unwrap()
}

fn common(package: Option<&str>) -> CommonArgs {
    CommonArgs {
        package: package.map(|p| PackageName::from_str(p).unwrap()),
        incremental: false,
        no_fullscreen: false,
    }
}

fn load(packages: Vec<Package>, only: Option<&str>) -> Result<Workspace, WorkspaceError> {
    Workspace::load("/ws".into(), true, packages, config(), common(only), Fingerprints::new())
}

fn shown(ws: &Workspace) -> Vec<String> {
    ws.package_display_order().iter().map(|p| p.name.to_string()).collect()
}

#[test]
fn display_order_shows_dependents_before_dependencies() {
    let ws = load(vec![package("c", &[], 0), package("b", &["c"], 1), package("a", &["b"], 2)], None).unwrap();
    assert_eq!(shown(&ws), vec!["a", "b", "c"]);
    let ws = load(vec![package("a", &[], 0), package("b", &["a"], 1), package("c", &["b"], 2)], None).unwrap();
    assert_eq!(shown(&ws), vec!["c", "b", "a"]);
}

#[test]
fn display_order_goes_by_name_where_nothing_depends() {
    let ws = load(
        vec![package("delta", &[], 0), package("alpha", &[], 1), package("@s/alpha", &[], 2), package("beta", &[], 3)],
        None,
    )
    .unwrap();
    assert_eq!(shown(&ws), vec!["alpha", "@s/alpha", "beta", "delta"]);
    assert_eq!(ws.display_positions(), &vec![1, 2, 3, 0]);
}

#[test]
fn display_order_puts_a_dependency_after_everything_that_needs_it() {
    // `c` needs `a`, and `b` needs nothing: `a` has to wait for `c`, so that
    // `b` and `c` go before it although `a` is first by name.
    let ws = load(vec![package("a", &[], 0), package("b", &[], 1), package("c", &["a"], 2)], None).unwrap();
    assert_eq!(shown(&ws), vec!["b", "c", "a"]);
}

#[test]
fn display_order_never_shows_a_package_after_what_it_depends_on() {
    let ws = load(
        vec![
            package("m", &["z", "k"], 0),
            package("z", &["k"], 1),
            package("k", &[], 2),
            package("a", &["m"], 3),
            package("q", &[], 4),
        ],
        None,
    )
    .unwrap();
    let order = ws.display_positions().clone();
    assert_eq!(order.len(), 5);
    for i in 0..order.len() {
        for j in (i + 1)..order.len() {
            assert!(!ws.pkg_graph.is_dependent_on(&(order[j] as u64), &(order[i] as u64)));
        }
    }
    assert_eq!(shown(&ws), vec!["a", "m", "q", "z", "k"]);
}

#[test]
fn display_order_breaks_ties_of_equal_names_by_position() {
    let ws = load(vec![package("x", &[], 0), package("x", &[], 1)], None).unwrap();
    assert_eq!(ws.display_positions(), &vec![0, 1]);
}

#[test]
fn workspace_of_no_packages_shows_nothing() {
    let ws = load(vec![], None).unwrap();
    assert!(shown(&ws).is_empty());
    assert!(ws.roots.is_empty());
}

#[test]
fn workspace_roots_are_all_packages_or_the_one_named() {
    let pkgs = || vec![package("a", &["b"], 0), package("b", &[], 1)];
    assert_eq!(load(pkgs(), None).unwrap().roots, vec![0, 1]);
    assert_eq!(load(pkgs(), Some("b")).unwrap().roots, vec![1]);
    assert_eq!(load(pkgs(), Some("zz")).err(), Some(WorkspaceError::PackageNotFound { name: "zz".into() }));
}

#[test]
fn workspace_refuses_a_cycle_and_names_a_package_on_it() {
    let r = load(vec![package("a", &["b"], 0), package("b", &["a"], 1), package("c", &[], 2)], None);
    match r.err() {
        Some(WorkspaceError::Graph(GraphError::CycleDetected { node, name })) => {
            assert!(node == 0 || node == 1);
            assert_eq!(name, if node == 0 { "a" } else { "b" });
        }
        other => panic!("a cycle must be reported, not {other:?}"),
    }
}

#[test]
fn workspace_refuses_a_package_out_of_place() {
    let r = load(vec![package("a", &[], 0), package("b", &[], 5)], None);
    assert_eq!(r.err(), Some(WorkspaceError::MisplacedPackage { position: 1 }));
}

#[test]
fn find_package_by_name_finds_or_fails() {
    let ws = load(vec![package("a", &[], 0), package("@s/b", &[], 1)], None).unwrap();
    let b = PackageName::from_str("@s/b").unwrap();
    assert_eq!(ws.find_package_by_name(&b).map(|p| p.index), Ok(1));
    let c = PackageName::from_str("c").unwrap();
    assert_eq!(ws.find_package_by_name(&c).map(|p| p.index), Err(WorkspaceError::PackageNotFound { name: "c".into() }));
}

#[test]
fn scripts_resolve_to_executables() {
    let ws = load(vec![package("a", &[], 0)], None).unwrap();
    assert_eq!(ws.script_path("pnpm"), "/home/u/.local/bin/pnpm");
    assert_eq!(ws.script_path("tsc"), "/ws/node_modules/.bin/tsc");
    assert_eq!(ws.script_path("vite"), "/ws/node_modules/.bin/vite");
}

#[test]
fn a_process_starts_only_with_its_executable() {
    let ws = load(vec![package("a", &[], 0)], None).unwrap();
    match ws.start_process("tsc", true) {
        Ok(p) => {
            assert_eq!(p.script(), "tsc");
            assert!(!p.finished());
            assert_eq!(p.stdout().len(), 0);
        }
        Err(_) => panic!(),
    }
    match ws.start_process("tsc", false) {
        Err(e) => assert_eq!(e, WorkspaceError::MissingExecutable { path: "/ws/node_modules/.bin/tsc".into() }),
        Ok(_) => panic!(),
    }
}

#[test]
fn root_candidates_run_from_the_working_directory_upwards() {
    assert_eq!(
        workspace_root_candidates("/home/u", "/home/u/ws/packages/foo"),
        Ok(vec![
            "/home/u/ws/packages/foo".to_string(),
            "/home/u/ws/packages".to_string(),
            "/home/u/ws".to_string(),
            "/home/u".to_string(),
        ])
    );
    assert_eq!(workspace_root_candidates("/a", "/a"), Ok(vec!["/a".to_string()]));
    assert_eq!(
        workspace_root_candidates("/", "/x/y"),
        Ok(vec!["/x/y".to_string(), "/x".to_string(), "/".to_string()])
    );
    assert_eq!(
        workspace_root_candidates("/a/b", "/a/c"),
        Err(WorkspaceError::OutsideCeiling { cwd: "/a/c".into(), ceiling: "/a/b".into() })
    );
}

#[test]
fn workspace_root_is_the_first_candidate_with_a_manifest() {
    let dirs: Vec<String> = ["/a/b/c", "/a/b", "/a"].iter().map(|s| s.to_string()).collect();
    assert_eq!(find_workspace_root(&dirs, &vec![false, true, true], "/a/b/c"), Ok("/a/b".to_string()));
    assert_eq!(find_workspace_root(&dirs, &vec![true, false, false], "/a/b/c"), Ok("/a/b/c".to_string()));
    assert_eq!(find_workspace_root(&dirs, &vec![false, false, true], "/a/b/c"), Ok("/a".to_string()));
    assert_eq!(
        find_workspace_root(&dirs, &vec![false, false, false], "/a/b/c"),
        Err(WorkspaceError::RootNotFound { cwd: "/a/b/c".into() })
    );
    assert_eq!(find_workspace_root(&vec![], &vec![], "/x"), Err(WorkspaceError::RootNotFound { cwd: "/x".into() }));
}

fn brute_force_order(names: &[&str], needs: &[Vec<usize>]) -> Vec<usize> {
    let n = names.len();
    let depends = |x: usize, y: usize| {
        let mut seen = vec![false; n];
        let mut stack = needs[x].clone();
        while let Some(z) = stack.pop() {
            if !seen[z] {
                seen[z] = true;
                stack.extend(needs[z].iter().copied());
            }
        }
        seen[y]
    };
    let mut placed = vec![false; n];
    let mut order = Vec::new();
    while order.len() < n {
        let best = (0..n)
            .filter(|&y| !placed[y] && (0..n).all(|z| placed[z] || !depends(z, y)))
            .min_by_key(|&y| (names[y], y))
            .expect("a package without a cycle can be placed");
        placed[best] = true;
        order.push(best);
    }
    order
}

#[test]
fn display_order_is_the_one_that_a_plain_search_finds() {
    let names = ["h", "c", "e", "a", "g", "b", "f", "d"];
    let mut seed = 12345u64;
    let mut next = |below: u64| {
        seed = seed.wrapping_mul(6364136223846793005).wrapping_add(1442695040888963407);
        (seed >> 33) % below
    };
    for _ in 0..40 {
        let n = 1 + next(8) as usize;
        let needs: Vec<Vec<usize>> =
            (0..n).map(|i| (i + 1..n).filter(|_| next(4) == 0).collect()).collect();
        let packages = (0..n)
            .map(|i| {
                let deps: Vec<&str> = needs[i].iter().map(|&d| names[d]).collect();
                package(names[i], &deps, i)
            })
            .collect();
        let ws = load(packages, None).unwrap();
        assert_eq!(ws.display_positions(), &brute_force_order(&names[..n], &needs));
    }
}
