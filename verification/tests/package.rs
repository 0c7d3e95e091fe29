use depot::workspace::dep_graph::GraphError;
use depot::workspace::package::{
    build_package_graph, find_package, has_asset_extension, has_source_extension, Package, PackageDepotConfig,
    PackageError, PackageManifest, PackageName, Platform, RawManifest, SourceProbe, Target,
};
use std::collections::HashSet;

fn raw(name: &str, deps: &[&str]) -> RawManifest {
    RawManifest {
        name: Some(name.to_string()),
        dependencies: deps.iter().map(|d| d.to_string()).collect(),
        dev_dependencies: vec![],
        peer_dependencies: vec![],
        config: Some(PackageDepotConfig { platform: Platform::Browser, target: None, no_server: None }),
    }
}

fn package(name: &str, deps: &[&str], index: usize) -> Package {
    let manifest = PackageManifest::from_json(raw(name, deps), "dummy.rs").expect("Manifest failed to convert");
    Package::from_parts("dummy.rs".into(), manifest, index, Target::Lib).expect("Package failed to build")
}

fn chain() -> Vec<Package> {
    vec![package("a", &["b"], 0), package("b", &["c"], 1), package("c", &[], 2)]
}

fn set(items: &[u64]) -> HashSet<u64> {
    items.iter().copied().collect()
}

#[test]
fn package_test_package_name() {
    let s = "foo";
    let name = PackageName::from_str(s).unwrap();
    assert_eq!(name, PackageName { name: "foo".into(), scope: None });

    let s = "@foo/bar";
    let name = PackageName::from_str(s).unwrap();
    assert_eq!(name, PackageName { name: "bar".into(), scope: Some("foo".into()) });
    assert_eq!("@foo/bar", name.to_string());

    let s = "@what/is/this";
    assert!(PackageName::from_str(s).is_err());
}

#[test]
fn test_package_graph() {
    let pkgs = chain();
    let (a, b, c) = (0u64, 1u64, 2u64);

    let dg = build_package_graph(&pkgs, vec![0, 1, 2]).unwrap();
    let deps_for = |p: u64| dg.all_deps_for(&p).into_iter().collect::<HashSet<_>>();
    assert_eq!(deps_for(a), set(&[b, c]));
    assert_eq!(deps_for(b), set(&[c]));
    assert_eq!(deps_for(c), set(&[]));

    let imm_deps_for = |p: u64| dg.immediate_deps_for(&p).into_iter().collect::<HashSet<_>>();
    assert_eq!(imm_deps_for(a), set(&[b]));
    assert_eq!(imm_deps_for(b), set(&[c]));
    assert_eq!(imm_deps_for(c), set(&[]));

    assert!(dg.is_dependent_on(&a, &b));
    assert!(dg.is_dependent_on(&a, &c));
    assert!(!dg.is_dependent_on(&b, &a));
}

#[test]
fn test_dep_graph() {
    let pkgs = chain();

    let dg = build_package_graph(&pkgs, vec![0, 1, 2]).unwrap();
    let deps_for = |n: u64| dg.all_deps_for(&n).into_iter().collect::<HashSet<_>>();
    assert_eq!(deps_for(0), set(&[1, 2]));
    assert_eq!(deps_for(1), set(&[2]));
    assert_eq!(deps_for(2), set(&[]));

    let imm_deps_for = |n: u64| dg.immediate_deps_for(&n).into_iter().collect::<HashSet<_>>();
    assert_eq!(imm_deps_for(0), set(&[1]));
    assert_eq!(imm_deps_for(1), set(&[2]));
    assert_eq!(imm_deps_for(2), set(&[]));

    assert!(dg.is_dependent_on(&0, &1));
    assert!(dg.is_dependent_on(&0, &2));
    assert!(!dg.is_dependent_on(&1, &0));
}

#[test]
fn package_graph_from_one_root_holds_what_it_reaches() {
    let pkgs = chain();
    let dg = build_package_graph(&pkgs, vec![1]).unwrap();
    assert_eq!(dg.nodes().into_iter().collect::<HashSet<_>>(), set(&[1, 2]));
    assert_eq!(dg.roots(), &vec![1]);
}

#[test]
fn package_graph_cycle_names_a_package() {
    let pkgs = vec![package("x", &["@s/y"], 0), package("@s/y", &["x"], 1)];
    match build_package_graph(&pkgs, vec![0, 1]) {
        Err(GraphError::CycleDetected { node, name }) => {
            assert!(node < 2);
            assert_eq!(name, pkgs[node as usize].name.to_string());
        }
        _ => panic!("a cycle must be reported"),
    }
}

#[test]
fn package_graph_passes_over_names_outside_the_workspace() {
    let pkgs = vec![package("a", &["react", "b", "@not/a/name"], 0), package("b", &[], 1)];
    let dg = build_package_graph(&pkgs, vec![0, 1]).unwrap();
    assert_eq!(dg.immediate_deps_for(&0), vec![1]);
}

#[test]
fn package_name_parses_edge_cases() {
    assert_eq!(PackageName::from_str("").unwrap(), PackageName { name: "".into(), scope: None });
    assert_eq!(PackageName::from_str("a/b").unwrap(), PackageName { name: "a/b".into(), scope: None });
    assert_eq!(PackageName::from_str("@/x").unwrap(), PackageName { name: "x".into(), scope: Some("".into()) });
    assert_eq!(PackageName::from_str("@s/").unwrap(), PackageName { name: "".into(), scope: Some("s".into()) });
    assert_eq!(PackageName::from_str("@noslash"), Err(PackageError::InvalidName));
    assert_eq!(PackageName::from_str("@"), Err(PackageError::InvalidName));
    assert_eq!(PackageName::from_str("@a/b/"), Err(PackageError::InvalidName));
    assert_eq!(
        PackageName::from_str("@ünï/cödé").unwrap(),
        PackageName { name: "cödé".into(), scope: Some("ünï".into()) }
    );
}

#[test]
fn package_name_text_round_trips() {
    for s in ["foo", "@foo/bar", "@a/b-c", "plain-name"] {
        assert_eq!(PackageName::from_str(s).unwrap().to_string(), s);
    }
}

#[test]
fn package_name_as_global_var_capitalizes_parts() {
    let name = |s: &str| PackageName::from_str(s).unwrap();
    assert_eq!(name("foo").as_global_var(), "Foo");
    assert_eq!(name("foo-bar").as_global_var(), "FooBar");
    assert_eq!(name("@scope/my-lib-two").as_global_var(), "MyLibTwo");
    assert_eq!(name("ßeta-x").as_global_var(), "SSetaX");
    assert_eq!(name("a").as_global_var(), "A");
}

#[test]
fn package_name_order_is_by_name_then_scope() {
    let name = |s: &str| PackageName::from_str(s).unwrap();
    assert!(name("a").precedes(&name("b")));
    assert!(!name("b").precedes(&name("a")));
    assert!(name("a").precedes(&name("a")));
    assert!(name("a").precedes(&name("ab")));
    assert!(!name("ab").precedes(&name("a")));
    assert!(name("x").precedes(&name("@s/x")));
    assert!(!name("@s/x").precedes(&name("x")));
    assert!(name("@a/x").precedes(&name("@b/x")));
    assert!(name("@z/a").precedes(&name("@a/b")));
    assert!(name("Z").precedes(&name("a")));
    assert!(name("z").precedes(&name("é")));
}

#[test]
fn package_names_are_the_same_when_name_and_scope_are() {
    let a = PackageName::from_str("@s/x").unwrap();
    assert!(a.same_as(&a.clone()));
    assert!(!a.same_as(&PackageName::from_str("x").unwrap()));
    assert!(!a.same_as(&PackageName::from_str("@t/x").unwrap()));
}

#[test]
fn platform_and_target_tell_what_they_are() {
    assert!(Platform::Browser.is_browser());
    assert!(!Platform::Browser.is_node());
    assert!(Platform::Node.is_node());
    assert!(!Platform::Node.is_browser());
    assert_eq!(Platform::Browser.to_esbuild_string(), "browser");
    assert_eq!(Platform::Node.to_esbuild_string(), "node");
    assert!(Target::Lib.is_lib() && !Target::Lib.is_site() && !Target::Lib.is_script());
    assert!(Target::Site.is_site() && !Target::Site.is_lib() && !Target::Site.is_script());
    assert!(Target::Script.is_script() && !Target::Script.is_lib() && !Target::Script.is_site());
}

#[test]
fn manifest_without_settings_is_refused() {
    let mut r = raw("a", &[]);
    r.config = None;
    match PackageManifest::from_json(r, "/ws/package.json") {
        Err(e) => assert_eq!(e, PackageError::MissingConfig { path: "/ws/package.json".into() }),
        Ok(_) => panic!("a manifest without settings must be refused"),
    }
}

#[test]
fn package_takes_its_name_from_its_directory() {
    let mut r = raw("ignored", &[]);
    r.name = None;
    let manifest = PackageManifest::from_json(r, "p").unwrap_or_else(|_| panic!());
    let pkg = Package::from_parts("/ws/packages/my-pkg".into(), manifest, 3, Target::Site).unwrap_or_else(|_| panic!());
    assert_eq!(pkg.name, PackageName { name: "my-pkg".into(), scope: None });
    assert_eq!(pkg.index, 3);
    assert_eq!(pkg.target, Target::Site);
    assert_eq!(pkg.platform, Platform::Browser);
    assert_eq!(pkg.root, "/ws/packages/my-pkg");
}

#[test]
fn package_without_any_name_is_refused() {
    let mut r = raw("ignored", &[]);
    r.name = None;
    let manifest = PackageManifest::from_json(r, "p").unwrap_or_else(|_| panic!());
    match Package::from_parts("/".into(), manifest, 0, Target::Lib) {
        Err(e) => assert_eq!(e, PackageError::MissingName { root: "/".into() }),
        Ok(_) => panic!("a package without a name must be refused"),
    }
}

#[test]
fn package_with_a_bad_name_is_refused() {
    let manifest = PackageManifest::from_json(raw("@what/is/this", &[]), "p").unwrap_or_else(|_| panic!());
    match Package::from_parts("/ws".into(), manifest, 0, Target::Lib) {
        Err(e) => assert_eq!(e, PackageError::InvalidName),
        Ok(_) => panic!("a bad name must be refused"),
    }
}

#[test]
fn target_is_inferred_in_order_of_priority() {
    let probe = |has_lib, has_main, has_index| SourceProbe { has_lib, has_main, has_index };
    assert_eq!(Package::infer_target("/p", Some(Target::Site), probe(true, true, true)), Ok(Target::Site));
    assert_eq!(Package::infer_target("/p", None, probe(true, true, true)), Ok(Target::Lib));
    assert_eq!(Package::infer_target("/p", None, probe(false, true, true)), Ok(Target::Script));
    assert_eq!(Package::infer_target("/p", None, probe(false, false, true)), Ok(Target::Site));
    assert_eq!(
        Package::infer_target("/p", None, probe(false, false, false)),
        Err(PackageError::UnknownTarget { root: "/p".into() })
    );
}

#[test]
fn source_file_candidates_are_tried_in_order() {
    assert_eq!(
        Package::find_source_file("/p", "lib"),
        vec!["/p/src/lib.tsx".to_string(), "/p/src/lib.ts".to_string(), "/p/src/lib.js".to_string()]
    );
}

#[test]
fn package_load_puts_the_parts_together() {
    let mut r = raw("@s/app", &["x"]);
    r.dev_dependencies = vec!["y".into()];
    r.peer_dependencies = vec!["@p/z".into(), "@bad".into()];
    r.config = Some(PackageDepotConfig { platform: Platform::Node, target: None, no_server: Some(true) });
    let probe = SourceProbe { has_lib: false, has_main: true, has_index: false };
    let pkg = Package::load("/ws/app".into(), r, probe, 7).unwrap_or_else(|_| panic!());
    assert_eq!(pkg.name.to_string(), "@s/app");
    assert_eq!(pkg.target, Target::Script);
    assert_eq!(pkg.platform, Platform::Node);
    assert_eq!(pkg.index, 7);
    assert_eq!(pkg.manifest.config.no_server, Some(true));
    let deps: Vec<String> = pkg.all_dependencies().iter().map(|n| n.to_string()).collect();
    assert_eq!(deps, vec!["x", "y", "@p/z"]);
}

#[test]
fn package_load_reports_each_fault() {
    let probe = SourceProbe { has_lib: false, has_main: false, has_index: false };
    let mut no_config = raw("a", &[]);
    no_config.config = None;
    match Package::load("/ws/a".into(), no_config, probe, 0) {
        Err(e) => assert_eq!(e, PackageError::MissingConfig { path: "/ws/a/package.json".into() }),
        Ok(_) => panic!(),
    }
    match Package::load("/ws/a".into(), raw("a", &[]), probe, 0) {
        Err(e) => assert_eq!(e, PackageError::UnknownTarget { root: "/ws/a".into() }),
        Ok(_) => panic!(),
    }
}

#[test]
fn files_are_told_apart_by_extension() {
    for f in ["a.css", "b/c.scss", "x.jpeg", "x.jpg", "x.png", "x.svg"] {
        assert!(has_asset_extension(f), "{f}");
        assert!(!has_source_extension(f), "{f}");
    }
    for f in ["a.ts", "b/c.tsx", "index.html"] {
        assert!(has_source_extension(f), "{f}");
        assert!(!has_asset_extension(f), "{f}");
    }
    for f in ["a.js", "noext", ".gitignore", "a.css.map", "dir.css/file"] {
        assert!(!has_source_extension(f), "{f}");
        assert!(!has_asset_extension(f), "{f}");
    }
}

#[test]
fn asset_and_source_files_keep_their_order() {
    let src: Vec<String> = ["s/a.ts", "s/b.css", "s/c.txt", "s/d.png", "s/e.tsx"].iter().map(|s| s.to_string()).collect();
    let tests: Vec<String> = ["t/x.test.ts", "t/y.js"].iter().map(|s| s.to_string()).collect();
    assert_eq!(Package::asset_files(&src), vec!["s/b.css", "s/d.png"]);
    assert_eq!(Package::source_files(&src, &tests), vec!["s/a.ts", "s/e.tsx", "t/x.test.ts"]);
}

#[test]
fn find_package_gives_the_first_of_that_name() {
    let pkgs = vec![package("a", &[], 0), package("b", &[], 1), package("a", &[], 2)];
    assert_eq!(find_package(&pkgs, &PackageName::from_str("a").unwrap()), Some(0));
    assert_eq!(find_package(&pkgs, &PackageName::from_str("b").unwrap()), Some(1));
    assert_eq!(find_package(&pkgs, &PackageName::from_str("c").unwrap()), None);
    assert_eq!(find_package(&pkgs, &PackageName::from_str("@s/a").unwrap()), None);
}

#[test]
fn build_settings_are_read_from_their_fields() {
    assert_eq!(
        PackageDepotConfig::from_fields(Some("browser"), None, None),
        Ok(PackageDepotConfig { platform: Platform::Browser, target: None, no_server: None })
    );
    assert_eq!(
        PackageDepotConfig::from_fields(Some("node"), Some("script"), Some(true)),
        Ok(PackageDepotConfig { platform: Platform::Node, target: Some(Target::Script), no_server: Some(true) })
    );
    assert_eq!(PackageDepotConfig::from_fields(None, Some("lib"), None), Err(PackageError::MissingPlatform));
    assert_eq!(
        PackageDepotConfig::from_fields(Some("deno"), Some("nothing"), None),
        Err(PackageError::BadSetting { field: "platform".into(), value: "deno".into() })
    );
    assert_eq!(
        PackageDepotConfig::from_fields(Some("node"), Some("app"), None),
        Err(PackageError::BadSetting { field: "target".into(), value: "app".into() })
    );
    assert_eq!(Platform::from_name("browser"), Some(Platform::Browser));
    assert_eq!(Platform::from_name("Browser"), None);
    assert_eq!(Target::from_name("lib"), Some(Target::Lib));
    assert_eq!(Target::from_name("site"), Some(Target::Site));
    assert_eq!(Target::from_name(""), None);
}
