use depot::commands::builder::{BuildArgs, BuildCommand};
use depot::commands::clean::{CleanArgs, CleanCommand};
use depot::commands::setup::GlobalConfig;
use depot::commands::test::{TestArgs, TestCommand};
use depot::commands::Action;
use depot::workspace::command::{build_command_graph, Command, CommandGraph, CommandRuntime, CommandScope};
use depot::workspace::dep_graph::GraphError;
use depot::workspace::fingerprint::{Fingerprints, Timestamp};
use depot::workspace::package::{
    Package, PackageDepotConfig, PackageManifest, PackageName, Platform, RawManifest, Target,
};
use depot::workspace::runner::{
    run_result, should_save_fingerprints, use_fullscreen, Event, Outcome, Poll, Runner, TaskStatus,
};
use depot::workspace::task::{
    build_task_graph, plan_tasks, selected_packages, task_name, InputSource, InputTimes,
    TaskGraph, TaskPlan,
};
use depot::workspace::{CommonArgs, Workspace};

fn package(name: &str, deps: &[&str], index: usize) -> Package {
    let raw = RawManifest {
        name: Some(name.to_string()),
        dependencies: deps.iter().map(|d| d.to_string()).collect(),
        dev_dependencies: vec![],
        peer_dependencies: vec![],
        config: Some(PackageDepotConfig { platform: Platform::Browser, target: None, no_server: None }),
    };
    let manifest = PackageManifest::from_json(raw, "package.json").unwrap_or_else(|_| panic!());
    Package::from_parts(format!("/ws/packages/{name}"), manifest, index, Target::Lib).unwrap_or_else(|_| panic!())
}

fn workspace(packages: Vec<Package>, monorepo: bool, only: Option<&str>) -> Workspace {
    let config = GlobalConfig::load("/g".into(), true, true, None).unwrap();
    let common = CommonArgs {
        package: only.map(|p| PackageName::from_str(p).unwrap()),
        incremental: true,
        no_fullscreen: false,
    };
    Workspace::load("/ws".into(), monorepo, packages, config, common, Fingerprints::new()).unwrap()
}

/// `foo` and `bar`, which needs `foo`.
fn foo_bar() -> Workspace {
    workspace(vec![package("foo", &[], 0), package("bar", &["foo"], 1)], true, None)
}

/// No times of inputs: nothing is known, so nothing can be skipped.
fn no_times() -> InputTimes {
    InputTimes { packages: Vec::new(), manifests: None }
}

fn graph<'a>(ws: &Workspace, cg: &CommandGraph<'a>) -> TaskGraph {
    match build_task_graph(ws, cg, &no_times()) {
        Ok(tg) => tg,
        Err(_) => panic!("the tasks do not wait in a circle"),
    }
}

fn keys(plan: &TaskPlan) -> Vec<&str> {
    plan.tasks.iter().map(|t| t.key.as_str()).collect()
}

fn waits_for(plan: &TaskPlan, key: &str) -> Vec<String> {
    let t = plan.tasks.iter().position(|t| t.key == key).expect("the task is planned");
    plan.table.deps[t].iter().map(|&d| plan.tasks[d as usize].key.clone()).collect()
}

fn custom(name: &str, scope: CommandScope, runtime: CommandRuntime, deps: Vec<Command>) -> Command {
    Command::from_parts(scope, name.to_string(), deps, runtime, Action::Custom)
}

#[test]
fn task_keys_name_the_command_and_its_scope() {
    assert_eq!(task_name("build", None), "build:ws");
    assert_eq!(task_name("build", Some(&PackageName::from_str("foo").unwrap())), "build:pkg(foo)");
    assert_eq!(task_name("test", Some(&PackageName::from_str("@s/foo").unwrap())), "test:pkg(@s/foo)");
}

#[test]
fn selected_packages_are_the_roots_after_what_they_need() {
    assert_eq!(selected_packages(&foo_bar()), vec![0, 0, 1]);
    let only_bar = workspace(vec![package("foo", &[], 0), package("bar", &["foo"], 1), package("baz", &[], 2)], true, Some("bar"));
    assert_eq!(selected_packages(&only_bar), vec![0, 1]);
    let only_baz = workspace(vec![package("foo", &[], 0), package("bar", &["foo"], 1), package("baz", &[], 2)], true, Some("baz"));
    assert_eq!(selected_packages(&only_baz), vec![2]);
}

#[test]
fn tasks_of_test_wait_for_build_and_init() {
    let ws = foo_bar();
    let root = TestCommand::new(TestArgs::default()).kind();
    let cg = build_command_graph(&root).unwrap_or_else(|_| panic!());
    let tg = graph(&ws, &cg);
    let plan = &tg.plan;
    assert_eq!(
        keys(plan),
        vec!["test:pkg(foo)", "test:pkg(bar)", "build:pkg(foo)", "build:pkg(bar)", "init:ws"]
    );
    assert_eq!(plan.roots, vec![0, 0, 1]);
    assert_eq!(waits_for(plan, "test:pkg(foo)"), vec!["build:pkg(foo)", "build:pkg(foo)", "build:pkg(bar)"]);
    assert_eq!(
        waits_for(plan, "test:pkg(bar)"),
        vec!["build:pkg(foo)", "build:pkg(foo)", "build:pkg(bar)", "test:pkg(foo)"]
    );
    assert_eq!(waits_for(plan, "build:pkg(foo)"), vec!["init:ws"]);
    assert_eq!(waits_for(plan, "build:pkg(bar)"), vec!["init:ws", "build:pkg(foo)"]);
    assert_eq!(waits_for(plan, "init:ws"), Vec::<String>::new());
    assert_eq!(plan.tasks[0].command, 0);
    assert_eq!(plan.tasks[2].command, 1);
    assert_eq!(plan.tasks[4].command, 2);
    assert_eq!(plan.tasks[1].package, Some(1));
    assert_eq!(plan.tasks[4].package, None);
    assert_eq!(plan.tasks[1].input_source(&cg.command(0).action), InputSource::PackageFiles { package: 1 });
    assert_eq!(plan.tasks[4].input_source(&cg.command(2).action), InputSource::Manifests);
    assert_eq!(plan.tasks[4].input_source(&Action::Custom), InputSource::Nothing);
    assert_eq!(plan.tasks[4].input_source(&cg.command(1).action), InputSource::Nothing);
    assert!(plan.tasks.iter().all(|t| !t.can_skip));
    assert_eq!(tg.graph.nodes().len(), 5);
    assert!(tg.graph.is_dependent_on(&1, &4));
    assert!(!tg.graph.is_dependent_on(&4, &1));
    assert_eq!(tg.graph.immediate_deps_for(&3), vec![2, 4]);
}

#[test]
fn watching_tasks_do_not_wait_for_the_packages_they_need() {
    let ws = foo_bar();
    let root = BuildCommand::new(BuildArgs { release: false, offline: false, watch: true, lint_fail: false }).kind();
    let cg = build_command_graph(&root).unwrap_or_else(|_| panic!());
    let tg = graph(&ws, &cg);
    assert_eq!(keys(&tg.plan), vec!["build:pkg(foo)", "build:pkg(bar)", "init:ws"]);
    assert_eq!(waits_for(&tg.plan, "build:pkg(bar)"), vec!["init:ws"]);
    assert_eq!(waits_for(&tg.plan, "build:pkg(foo)"), vec!["init:ws"]);
}

#[test]
fn a_command_for_both_scopes_skips_the_workspace_where_it_is_one_package() {
    let both = custom("clean", CommandScope::Both, CommandRuntime::WaitForDependencies, vec![]);
    let cg = build_command_graph(&both).unwrap_or_else(|_| panic!());
    let single = workspace(vec![package("only", &[], 0)], false, None);
    assert_eq!(keys(&graph(&single, &cg).plan), vec!["clean:pkg(only)"]);
    let mono = workspace(vec![package("only", &[], 0)], true, None);
    assert_eq!(keys(&graph(&mono, &cg).plan), vec!["clean:pkg(only)", "clean:ws"]);
    let ws_only = CleanCommand::new(CleanArgs {}).kind();
    let cg = build_command_graph(&ws_only).unwrap_or_else(|_| panic!());
    assert_eq!(keys(&graph(&single, &cg).plan), vec!["clean:ws"]);
}

#[test]
fn tasks_with_one_key_are_one_task() {
    let init = || custom("init", CommandScope::Workspace, CommandRuntime::WaitForDependencies, vec![]);
    let a = custom("a", CommandScope::Workspace, CommandRuntime::WaitForDependencies, vec![init()]);
    let b = custom("b", CommandScope::Workspace, CommandRuntime::WaitForDependencies, vec![init()]);
    let root = custom("root", CommandScope::Workspace, CommandRuntime::WaitForDependencies, vec![a, b]);
    let cg = build_command_graph(&root).unwrap_or_else(|_| panic!());
    assert_eq!(cg.commands.len(), 5);
    let ws = foo_bar();
    let tg = graph(&ws, &cg);
    assert_eq!(keys(&tg.plan), vec!["root:ws", "a:ws", "init:ws", "b:ws"]);
    assert_eq!(waits_for(&tg.plan, "root:ws"), vec!["b:ws", "a:ws"]);
    assert_eq!(waits_for(&tg.plan, "a:ws"), vec!["init:ws"]);
    assert_eq!(waits_for(&tg.plan, "b:ws"), vec!["init:ws"]);
    assert_eq!(tg.plan.tasks[2].command, 2);
}

#[test]
fn tasks_that_wait_in_a_circle_are_refused() {
    let inner = custom("same", CommandScope::Workspace, CommandRuntime::WaitForDependencies, vec![]);
    let root = custom("same", CommandScope::Workspace, CommandRuntime::WaitForDependencies, vec![inner]);
    let cg = build_command_graph(&root).unwrap_or_else(|_| panic!());
    let ws = foo_bar();
    match build_task_graph(&ws, &cg, &no_times()) {
        Err(e) => {
            assert_eq!(e.cause, GraphError::CycleDetected { node: 0, name: "same:ws".into() });
            assert_eq!(keys(&e.plan), vec!["same:ws"]);
            assert_eq!(e.plan.table.deps, vec![vec![0]]);
        }
        Ok(_) => panic!("the task waits for itself"),
    }
}

#[test]
fn a_plan_that_waits_in_a_circle_gets_stuck() {
    let inner = custom("same", CommandScope::Workspace, CommandRuntime::WaitForDependencies, vec![]);
    let root = custom("same", CommandScope::Workspace, CommandRuntime::WaitForDependencies, vec![inner]);
    let cg = build_command_graph(&root).unwrap_or_else(|_| panic!());
    let plan = plan_tasks(&foo_bar(), &cg);
    let mut runner = Runner::new(&plan);
    assert!(matches!(runner.poll(&plan), Poll::Stalled));
    assert_eq!(runner.status(0), TaskStatus::Pending);
}

#[test]
fn a_workspace_without_packages_has_no_package_tasks() {
    let ws = workspace(vec![], true, None);
    let root = TestCommand::new(TestArgs::default()).kind();
    let cg = build_command_graph(&root).unwrap_or_else(|_| panic!());
    let plan = plan_tasks(&ws, &cg);
    assert!(plan.tasks.is_empty());
    assert!(plan.roots.is_empty());
    let mut runner = Runner::new(&plan);
    assert!(matches!(runner.poll(&plan), Poll::Done));
}

fn run_to_end(plan: &TaskPlan, fingerprints: &mut Fingerprints) -> (Vec<usize>, Runner) {
    let mut runner = Runner::new(plan);
    let mut started = Vec::new();
    let mut running: Vec<usize> = Vec::new();
    loop {
        match runner.poll(plan) {
            Poll::Done => break,
            Poll::Spawn(tasks) => {
                for &t in &tasks {
                    assert_eq!(runner.status(t), TaskStatus::Running);
                    for &d in &plan.table.deps[t] {
                        assert_eq!(runner.status(d as usize), TaskStatus::Finished);
                    }
                }
                started.extend(tasks.iter().copied());
                running.extend(tasks);
            }
            Poll::Wait => {}
            Poll::Stalled => panic!("the run is stuck"),
        }
        let next = running.remove(0);
        assert_eq!(runner.handle(plan, fingerprints, Event::Completed { task: next, success: true }), Outcome::Continue);
        assert_eq!(runner.status(next), TaskStatus::Finished);
    }
    assert!(runner.all_finished());
    assert!(!runner.any_running());
    (started, runner)
}

#[test]
fn a_run_starts_each_task_after_what_it_waits_for() {
    let ws = foo_bar();
    let root = TestCommand::new(TestArgs::default()).kind();
    let cg = build_command_graph(&root).unwrap_or_else(|_| panic!());
    let tg = graph(&ws, &cg);
    let mut fingerprints = Fingerprints::new();
    let (started, runner) = run_to_end(&tg.plan, &mut fingerprints);
    let order: Vec<&str> = started.iter().map(|&t| tg.plan.tasks[t].key.as_str()).collect();
    assert_eq!(order, vec!["init:ws", "build:pkg(foo)", "build:pkg(bar)", "test:pkg(foo)", "test:pkg(bar)"]);
    for t in 0..tg.plan.tasks.len() {
        assert!(!runner.was_skipped(t));
        assert!(fingerprints.get(&tg.plan.tasks[t].key).is_some());
    }
}

#[test]
fn the_first_poll_starts_everything_that_waits_for_nothing() {
    let ws = workspace(vec![package("a", &[], 0), package("b", &[], 1), package("c", &["a"], 2)], true, None);
    let root = custom("lint", CommandScope::Package, CommandRuntime::WaitForDependencies, vec![]);
    let cg = build_command_graph(&root).unwrap_or_else(|_| panic!());
    let plan = plan_tasks(&ws, &cg);
    assert_eq!(keys(&plan), vec!["lint:pkg(a)", "lint:pkg(b)", "lint:pkg(c)"]);
    let mut runner = Runner::new(&plan);
    match runner.poll(&plan) {
        Poll::Spawn(tasks) => assert_eq!(tasks, vec![0, 1]),
        _ => panic!(),
    }
    assert_eq!(runner.status(2), TaskStatus::Pending);
    assert!(matches!(runner.poll(&plan), Poll::Wait));
    let mut fingerprints = Fingerprints::new();
    assert_eq!(runner.handle(&plan, &mut fingerprints, Event::Completed { task: 1, success: true }), Outcome::Continue);
    assert!(matches!(runner.poll(&plan), Poll::Wait));
    assert_eq!(runner.handle(&plan, &mut fingerprints, Event::Completed { task: 0, success: true }), Outcome::Continue);
    match runner.poll(&plan) {
        Poll::Spawn(tasks) => assert_eq!(tasks, vec![2]),
        _ => panic!(),
    }
    assert_eq!(fingerprints.entries().len(), 2);
}

#[test]
fn a_failure_ends_the_run_and_records_nothing() {
    let ws = foo_bar();
    let root = BuildCommand::new(BuildArgs::default()).kind();
    let cg = build_command_graph(&root).unwrap_or_else(|_| panic!());
    let plan = plan_tasks(&ws, &cg);
    let mut runner = Runner::new(&plan);
    let mut fingerprints = Fingerprints::new();
    let init = plan.tasks.iter().position(|t| t.key == "init:ws").unwrap();
    match runner.poll(&plan) {
        Poll::Spawn(tasks) => assert_eq!(tasks, vec![init]),
        _ => panic!(),
    }
    assert_eq!(
        runner.handle(&plan, &mut fingerprints, Event::Completed { task: init, success: false }),
        Outcome::Stop { success: false }
    );
    assert_eq!(runner.status(init), TaskStatus::Running);
    assert!(fingerprints.entries().is_empty());
}

#[test]
fn the_wish_to_exit_ends_the_run_as_a_success() {
    let ws = foo_bar();
    let root = BuildCommand::new(BuildArgs::default()).kind();
    let cg = build_command_graph(&root).unwrap_or_else(|_| panic!());
    let plan = plan_tasks(&ws, &cg);
    let mut runner = Runner::new(&plan);
    let mut fingerprints = Fingerprints::new();
    let _ = runner.poll(&plan);
    assert_eq!(runner.handle(&plan, &mut fingerprints, Event::ExitRequested), Outcome::Stop { success: true });
    assert!(!runner.all_finished());
}

#[test]
fn word_of_a_task_that_does_not_run_changes_nothing() {
    let ws = foo_bar();
    let root = BuildCommand::new(BuildArgs::default()).kind();
    let cg = build_command_graph(&root).unwrap_or_else(|_| panic!());
    let plan = plan_tasks(&ws, &cg);
    let mut runner = Runner::new(&plan);
    let mut fingerprints = Fingerprints::new();
    for event in [
        Event::Completed { task: 0, success: true },
        Event::Completed { task: 0, success: false },
        Event::Completed { task: 99, success: true },
    ] {
        assert_eq!(runner.handle(&plan, &mut fingerprints, event), Outcome::Continue);
    }
    assert_eq!(runner.status(0), TaskStatus::Pending);
    assert!(fingerprints.entries().is_empty());
}

fn flagged(ws: &Workspace, cg: &CommandGraph, recorded: &[(&str, u64)], modified: &[(&str, Option<u64>)], incremental: bool) -> TaskPlan {
    let mut plan = plan_tasks(ws, cg);
    let mut fingerprints = Fingerprints::new();
    for (key, secs) in recorded {
        fingerprints.set_time(key.to_string(), Timestamp::new(*secs, 0).unwrap());
    }
    let inputs: Vec<Option<Vec<Option<Timestamp>>>> = plan
        .tasks
        .iter()
        .map(|t| {
            modified
                .iter()
                .find(|(key, _)| *key == t.key)
                .and_then(|(_, secs)| secs.map(|s| vec![Some(Timestamp::new(s, 0).unwrap()), None]))
        })
        .collect();
    plan.set_flags(&fingerprints, incremental, cg.commands[0].runtime(), &inputs);
    plan
}

#[test]
fn tasks_can_be_skipped_when_their_inputs_are_older_than_their_last_run() {
    let ws = foo_bar();
    let root = BuildCommand::new(BuildArgs::default()).kind();
    let cg = build_command_graph(&root).unwrap_or_else(|_| panic!());
    let recorded = [("init:ws", 100), ("build:pkg(foo)", 100), ("build:pkg(bar)", 100)];
    let modified = [("init:ws", Some(50)), ("build:pkg(foo)", Some(100)), ("build:pkg(bar)", Some(101))];
    let plan = flagged(&ws, &cg, &recorded, &modified, true);
    let flags: Vec<(&str, bool)> = plan.tasks.iter().map(|t| (t.key.as_str(), t.can_skip)).collect();
    assert_eq!(flags, vec![("build:pkg(foo)", true), ("build:pkg(bar)", false), ("init:ws", true)]);
    assert_eq!(keys(&plan), vec!["build:pkg(foo)", "build:pkg(bar)", "init:ws"]);
    assert_eq!(waits_for(&plan, "build:pkg(bar)"), vec!["init:ws", "build:pkg(foo)"]);

    let off = flagged(&ws, &cg, &recorded, &modified, false);
    assert!(off.tasks.iter().all(|t| !t.can_skip));
    let unknown = flagged(&ws, &cg, &recorded, &[("init:ws", None)], true);
    assert!(unknown.tasks.iter().all(|t| !t.can_skip));
    let unrecorded = flagged(&ws, &cg, &[], &modified, true);
    assert!(unrecorded.tasks.iter().all(|t| !t.can_skip));

    let watch = BuildCommand::new(BuildArgs { release: false, offline: false, watch: true, lint_fail: false }).kind();
    let cg = build_command_graph(&watch).unwrap_or_else(|_| panic!());
    assert!(flagged(&ws, &cg, &recorded, &modified, true).tasks.iter().all(|t| !t.can_skip));
}

#[test]
fn a_task_is_skipped_only_if_everything_it_waits_for_was_skipped() {
    let ws = foo_bar();
    let root = BuildCommand::new(BuildArgs::default()).kind();
    let cg = build_command_graph(&root).unwrap_or_else(|_| panic!());
    // Everything could be skipped.
    let recorded = [("init:ws", 100), ("build:pkg(foo)", 100), ("build:pkg(bar)", 100)];
    let all = [("init:ws", Some(1)), ("build:pkg(foo)", Some(1)), ("build:pkg(bar)", Some(1))];
    let plan = flagged(&ws, &cg, &recorded, &all, true);
    let mut runner = Runner::new(&plan);
    assert!(matches!(runner.poll(&plan), Poll::Done));
    assert!((0..3).all(|t| runner.was_skipped(t) && runner.status(t) == TaskStatus::Finished));

    // `init` has to run again: the builds could be skipped but are not.
    let stale_init = [("init:ws", Some(200)), ("build:pkg(foo)", Some(1)), ("build:pkg(bar)", Some(1))];
    let plan = flagged(&ws, &cg, &recorded, &stale_init, true);
    assert!(plan.tasks[0].can_skip && plan.tasks[1].can_skip && !plan.tasks[2].can_skip);
    let mut fingerprints = Fingerprints::new();
    let (started, runner) = run_to_end(&plan, &mut fingerprints);
    assert_eq!(started, vec![2, 0, 1]);
    assert!((0..3).all(|t| !runner.was_skipped(t)));

    // `foo` has to be built again: `init` is skipped, `bar` is built too.
    let stale_foo = [("init:ws", Some(1)), ("build:pkg(foo)", Some(200)), ("build:pkg(bar)", Some(1))];
    let plan = flagged(&ws, &cg, &recorded, &stale_foo, true);
    let (started, runner) = run_to_end(&plan, &mut fingerprints);
    assert_eq!(started, vec![0, 1]);
    assert!(runner.was_skipped(2) && !runner.was_skipped(0) && !runner.was_skipped(1));
}

#[test]
fn fingerprints_are_kept_after_every_command_but_clean() {
    assert!(should_save_fingerprints("build"));
    assert!(should_save_fingerprints("test"));
    assert!(should_save_fingerprints("cleaner"));
    assert!(!should_save_fingerprints("clean"));
}

#[test]
fn the_whole_screen_is_for_commands_that_run_forever() {
    assert!(use_fullscreen(false, Some(CommandRuntime::RunForever)));
    assert!(!use_fullscreen(true, Some(CommandRuntime::RunForever)));
    assert!(!use_fullscreen(false, Some(CommandRuntime::WaitForDependencies)));
    assert!(!use_fullscreen(false, None));
}

#[test]
fn runs_of_many_shapes_keep_their_order_and_their_skips() {
    let names = ["a", "b", "c", "d", "e", "f", "g"];
    let mut seed = 2024u64;
    let mut next = |below: u64| {
        seed = seed.wrapping_mul(6364136223846793005).wrapping_add(1442695040888963407);
        (seed >> 33) % below
    };
    for _ in 0..60 {
        let n = 1 + next(7) as usize;
        let packages: Vec<Package> = (0..n)
            .map(|i| {
                let deps: Vec<&str> = (i + 1..n).filter(|_| next(3) == 0).map(|d| names[d]).collect();
                package(names[i], &deps, i)
            })
            .collect();
        let ws = workspace(packages, true, None);
        let root = custom("lint", CommandScope::Package, CommandRuntime::WaitForDependencies, vec![]);
        let cg = build_command_graph(&root).unwrap_or_else(|_| panic!());
        let mut plan = graph(&ws, &cg).plan;
        assert_eq!(plan.tasks.len(), n);
        for task in plan.tasks.iter_mut() {
            task.can_skip = next(2) == 0;
        }

        let mut runner = Runner::new(&plan);
        let mut fingerprints = Fingerprints::new();
        let mut running: Vec<usize> = Vec::new();
        let mut started: Vec<usize> = Vec::new();
        loop {
            match runner.poll(&plan) {
                Poll::Done => break,
                Poll::Spawn(tasks) => {
                    started.extend(tasks.iter().copied());
                    running.extend(tasks);
                }
                Poll::Wait => {}
                Poll::Stalled => panic!("the run is stuck"),
            }
            for t in 0..n {
                let waits: Vec<usize> = plan.table.deps[t].iter().map(|&d| d as usize).collect();
                let ready = waits.iter().all(|&d| runner.status(d) == TaskStatus::Finished);
                if runner.status(t) == TaskStatus::Pending {
                    assert!(!ready);
                } else {
                    assert!(ready);
                    let skip = plan.tasks[t].can_skip && waits.iter().all(|&d| runner.was_skipped(d));
                    assert_eq!(runner.was_skipped(t), skip);
                    assert_eq!(running.contains(&t) || started.contains(&t), !skip);
                }
            }
            assert!(!running.is_empty());
            let next_done = running.remove(next(running.len() as u64) as usize);
            let event = Event::Completed { task: next_done, success: true };
            assert_eq!(runner.handle(&plan, &mut fingerprints, event), Outcome::Continue);
        }
        assert!(running.is_empty());
        assert!(runner.all_finished());
        let mut once = started.clone();
        once.sort();
        once.dedup();
        assert_eq!(once.len(), started.len());
        assert_eq!(fingerprints.entries().len(), started.len());
        for t in 0..n {
            assert_eq!(runner.was_skipped(t), !started.contains(&t));
        }
    }
}

fn recorded_workspace(recorded: &[(&str, u64)], incremental: bool) -> Workspace {
    let config = GlobalConfig::load("/g".into(), true, true, None).unwrap();
    let common = CommonArgs { package: None, incremental, no_fullscreen: false };
    let mut fingerprints = Fingerprints::new();
    for (key, secs) in recorded {
        fingerprints.set_time(key.to_string(), Timestamp::new(*secs, 0).unwrap());
    }
    let packages = vec![package("foo", &[], 0), package("bar", &["foo"], 1)];
    Workspace::load("/ws".into(), true, packages, config, common, fingerprints).unwrap()
}

fn flags_with(ws: &Workspace, root: &Command, times: &InputTimes) -> Vec<(String, bool)> {
    let cg = build_command_graph(root).unwrap_or_else(|_| panic!());
    let tg = build_task_graph(ws, &cg, times).unwrap_or_else(|_| panic!());
    tg.plan.tasks.iter().map(|t| (t.key.clone(), t.can_skip)).collect()
}

#[test]
fn a_task_graph_decides_from_the_times_of_the_inputs() {
    let at = |secs: u64| Some(Timestamp::new(secs, 0).unwrap());
    let recorded = [("init:ws", 100), ("build:pkg(foo)", 100), ("build:pkg(bar)", 100)];
    let ws = recorded_workspace(&recorded, true);
    let root = BuildCommand::new(BuildArgs::default()).kind();
    let times = InputTimes { packages: vec![vec![at(100), None, at(7)], vec![at(99), at(101)]], manifests: Some(vec![at(50)]) };
    let flag = |key: &str, can_skip: bool| (key.to_string(), can_skip);
    assert_eq!(
        flags_with(&ws, &root, &times),
        vec![flag("build:pkg(foo)", true), flag("build:pkg(bar)", false), flag("init:ws", true)]
    );

    // Without the times of the manifests the workspace is initialized again.
    let times = InputTimes { packages: vec![vec![], vec![]], manifests: None };
    assert_eq!(
        flags_with(&ws, &root, &times),
        vec![flag("build:pkg(foo)", true), flag("build:pkg(bar)", true), flag("init:ws", false)]
    );

    // A package whose times are not given has to be built.
    let times = InputTimes { packages: vec![vec![at(1)]], manifests: Some(vec![at(101)]) };
    assert_eq!(
        flags_with(&ws, &root, &times),
        vec![flag("build:pkg(foo)", true), flag("build:pkg(bar)", false), flag("init:ws", false)]
    );

    // Nothing is skipped in a run that is not incremental, in one whose
    // root runs forever, or where no time is recorded.
    let times = InputTimes { packages: vec![vec![at(1)], vec![at(1)]], manifests: Some(vec![at(1)]) };
    let off = recorded_workspace(&recorded, false);
    assert!(flags_with(&off, &root, &times).iter().all(|(_, can_skip)| !can_skip));
    let watch = BuildCommand::new(BuildArgs { release: false, offline: false, watch: true, lint_fail: false }).kind();
    assert!(flags_with(&ws, &watch, &times).iter().all(|(_, can_skip)| !can_skip));
    let blank = recorded_workspace(&[], true);
    assert!(flags_with(&blank, &root, &times).iter().all(|(_, can_skip)| !can_skip));
    assert!(flags_with(&ws, &root, &times).iter().all(|(_, can_skip)| *can_skip));

    // Without times the same graph is built, and nothing in it is skipped.
    let cg = build_command_graph(&root).unwrap_or_else(|_| panic!());
    let with = build_task_graph(&ws, &cg, &times).unwrap_or_else(|_| panic!());
    let without = graph(&ws, &cg);
    assert_eq!(keys(&with.plan), keys(&without.plan));
    assert_eq!(with.plan.table.deps, without.plan.table.deps);
    assert!(without.plan.tasks.iter().all(|t| !t.can_skip));
}

#[test]
fn a_run_returns_what_its_tasks_came_to() {
    let task = || Err::<(), String>("task".to_string());
    let save = || Err::<(), String>("save".to_string());

    let end = run_result(task(), Some(save()));
    assert_eq!(end.result, task());
    assert_eq!(end.logged, Some("save".to_string()));

    let end = run_result(task(), Some(Ok(())));
    assert_eq!(end.result, task());
    assert_eq!(end.logged, None);

    let end = run_result(task(), None);
    assert_eq!(end.result, task());
    assert_eq!(end.logged, None);

    let end = run_result(Ok(()), Some(save()));
    assert_eq!(end.result, Ok(()));
    assert_eq!(end.logged, Some("save".to_string()));

    let end = run_result(Ok::<(), String>(()), Some(Ok(())));
    assert_eq!(end.result, Ok(()));
    assert_eq!(end.logged, None);
}
