use depot::commands::setup::GlobalConfig;
use depot::logger::ui::{
    render_loop, select_biased, FullscreenRenderer, InlineRenderer, Key, LoopStep, MetaStyle, ProcessTable, Wake,
    PANES, TICK_RATE_MS,
};
use depot::workspace::fingerprint::Fingerprints;
use depot::workspace::package::{Package, PackageDepotConfig, PackageManifest, Platform, RawManifest, Target};
use depot::workspace::process::{ExitStatus, OutputChannel, Process};
use depot::workspace::{CommonArgs, Workspace};

fn package(name: &str, deps: &[&str], index: usize) -> Package {
    let raw = RawManifest {
        name: Some(name.to_string()),
        dependencies: deps.iter().map(|d| d.to_string()).collect(),
        dev_dependencies: vec![],
        peer_dependencies: vec![],
        config: Some(PackageDepotConfig { platform: Platform::Browser, target: None, no_server: None }),
    };
    let manifest = PackageManifest::from_json(raw, "package.json").unwrap_or_else(|_| panic!());
    Package::from_parts(format!("/ws/packages/{name}"), manifest, index, Target::Lib).unwrap_or_else(|_| panic!())
}

fn workspace(packages: Vec<Package>, monorepo: bool) -> Workspace {
    let config = GlobalConfig::load("/g".into(), true, true, None).unwrap();
    let common = CommonArgs { package: None, incremental: false, no_fullscreen: false };
    Workspace::load("/ws".into(), monorepo, packages, config, common, Fingerprints::new()).unwrap()
}

fn process(script: &str, lines: &[&str], finished: bool) -> Process {
    let mut p = Process::new(script.to_string());
    for line in lines {
        p.push_line(line.to_string(), OutputChannel::Stdout);
    }
    if finished {
        let _ = p.wait(Some(ExitStatus { code: Some(0) }));
    }
    p
}

fn style() -> MetaStyle {
    MetaStyle { start: "<".into(), end: ">".into() }
}

fn plain() -> MetaStyle {
    MetaStyle { start: "".into(), end: "".into() }
}

#[test]
fn inline_output_of_a_single_package() {
    let ws = workspace(vec![package("only", &[], 0)], false);
    let table = ProcessTable {
        workspace: vec![],
        packages: vec![vec![process("tsc", &["checking", "ok"], true), process("vite", &[], false)]],
    };
    assert_eq!(
        InlineRenderer::build_output(&ws, &table, &style()),
        "tsc\n<│ >checking\n<│ >ok\n<└─ finished\n>vite\n<└─ running...\n>"
    );
}

#[test]
fn inline_output_of_a_workspace_of_packages() {
    let ws = workspace(vec![package("foo", &[], 0), package("bar", &["foo"], 1), package("idle", &[], 2)], true);
    let table = ProcessTable {
        workspace: vec![process("pnpm", &["installing"], true)],
        packages: vec![
            vec![process("tsc", &["foo types"], false)],
            vec![process("tsc", &["a", "b"], true), process("eslint", &["warn"], false)],
            vec![],
        ],
    };
    let expected = concat(&[
        "ws/pnpm\n",
        "│ installing\n",
        "└─ finished\n",
        "bar\n",
        "├─ tsc\n",
        "│  │ a\n",
        "│  │ b\n",
        "│  └─ finished\n",
        "└─ eslint\n",
        "   │ warn\n",
        "   └─ running...\n",
        "foo\n",
        "└─ tsc\n",
        "   │ foo types\n",
        "   └─ running...\n",
    ]);
    assert_eq!(InlineRenderer::build_output(&ws, &table, &plain()), expected);
    let marked = InlineRenderer::build_output(&ws, &table, &style());
    assert!(marked.starts_with("ws/pnpm\n<│ >installing\n<└─ finished\n>bar\n<├─ >tsc\n<│  │ >a\n"));
    assert!(marked.ends_with("foo\n<└─ >tsc\n<   │ >foo types\n<   └─ running...\n>"));
}

fn concat(parts: &[&str]) -> String {
    parts.iter().copied().collect()
}

#[test]
fn inline_output_is_empty_without_processes() {
    let ws = workspace(vec![package("a", &[], 0)], true);
    let table = ProcessTable { workspace: vec![], packages: vec![vec![]] };
    assert_eq!(InlineRenderer::build_output(&ws, &table, &style()), "");
}

#[test]
fn inline_renderer_takes_the_size_of_the_terminal_or_a_default() {
    let r = InlineRenderer::new(Some((120, 50)));
    assert_eq!((r.width, r.height), (120, 50));
    let r = InlineRenderer::new(None);
    assert_eq!((r.width, r.height), (80, 40));
}

#[test]
fn the_selection_goes_round_the_packages() {
    let mut r = FullscreenRenderer::new();
    assert_eq!(r.selected_index(3), 0);
    assert!(!r.handle_input(Key::Right));
    assert_eq!(r.selected_index(3), 1);
    assert!(!r.handle_input(Key::Right));
    assert!(!r.handle_input(Key::Right));
    assert_eq!(r.selected_index(3), 0);
    assert!(!r.handle_input(Key::Other));
    assert_eq!(r.selected_index(3), 0);
    for expected in [2, 1, 0, 2, 1] {
        assert!(!r.handle_input(Key::Left));
        assert_eq!(r.selected_index(3), expected);
    }
    // The selection stands at two steps back.
    assert_eq!(r.selected_index(1), 0);
    assert_eq!(r.selected_index(4), 2);
    assert!(!r.handle_input(Key::Left));
    assert_eq!(r.selected_index(4), 1);
    assert_eq!(r.selected_index(5), 2);
    assert_eq!(r.selected_index(7), (-3isize).rem_euclid(7) as usize);
    assert_eq!(r.selected_index(3), 0);
}

#[test]
fn control_c_asks_for_an_early_exit() {
    let mut r = FullscreenRenderer::new();
    assert!(r.handle_input(Key::CtrlC));
    assert_eq!(r.selected_index(5), 0);
}

#[test]
fn tabs_are_labelled_in_display_order() {
    let ws = workspace(vec![package("foo", &[], 0), package("@s/bar", &["foo"], 1)], true);
    assert_eq!(
        FullscreenRenderer::build_tabs(&ws, 1),
        Some(vec![("@s/bar".to_string(), false), ("foo".to_string(), true)])
    );
    assert_eq!(
        FullscreenRenderer::build_tabs(&ws, 0),
        Some(vec![("@s/bar".to_string(), true), ("foo".to_string(), false)])
    );
    let single = workspace(vec![package("foo", &[], 0)], false);
    assert_eq!(FullscreenRenderer::build_tabs(&single, 0), None);
}

#[test]
fn a_pane_shows_the_newest_lines() {
    let p = process("tsc", &["1", "2", "3", "4", "5"], false);
    let shown = |h: usize| FullscreenRenderer::render_process_pane(&p, h).iter().map(|l| l.line.clone()).collect::<Vec<_>>();
    assert_eq!(shown(2), vec!["4", "5"]);
    assert_eq!(shown(5), vec!["1", "2", "3", "4", "5"]);
    assert_eq!(shown(9), vec!["1", "2", "3", "4", "5"]);
    assert!(shown(0).is_empty());
}

#[test]
fn there_are_panes_for_four_processes() {
    assert_eq!(PANES, 4);
    assert_eq!(FullscreenRenderer::visible_processes(0), 0);
    assert_eq!(FullscreenRenderer::visible_processes(3), 3);
    assert_eq!(FullscreenRenderer::visible_processes(4), 4);
    assert_eq!(FullscreenRenderer::visible_processes(9), 4);
}

#[test]
fn the_render_loop_prefers_the_exit_to_keys_and_keys_to_drawing() {
    assert_eq!(TICK_RATE_MS, 33);
    assert_eq!(select_biased(true, true, true), Some(Wake::Exit));
    assert_eq!(select_biased(false, true, true), Some(Wake::Input));
    assert_eq!(select_biased(false, false, true), Some(Wake::Tick));
    assert_eq!(select_biased(true, false, false), Some(Wake::Exit));
    assert_eq!(select_biased(false, false, false), None);
    assert_eq!(render_loop(Wake::Exit, true), LoopStep::Complete { exit_early: false });
    assert_eq!(render_loop(Wake::Input, true), LoopStep::Complete { exit_early: true });
    assert_eq!(render_loop(Wake::Input, false), LoopStep::Continue);
    assert_eq!(render_loop(Wake::Tick, false), LoopStep::Render);
}
