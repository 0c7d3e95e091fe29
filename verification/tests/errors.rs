use depot::commands::new::NewError;
use depot::commands::setup::ConfigError;
use depot::commands::shell::CommandError;
use depot::workspace::dep_graph::GraphError;
use depot::workspace::package::PackageError;
use depot::workspace::process::ProcessError;
use depot::workspace::WorkspaceError;

#[test]
fn graph_errors_name_the_node() {
    assert_eq!(
        GraphError::CycleDetected { node: 3, name: "@s/pkg".into() }.to_string(),
        "Cycle detected in dependency graph involving node: @s/pkg"
    );
    assert_eq!(GraphError::TooLarge.to_string(), "Dependency graph is too large");
}

#[test]
fn package_errors_say_where() {
    assert_eq!(PackageError::InvalidName.to_string(), "Invalid package name");
    assert_eq!(
        PackageError::MissingConfig { path: "/p/package.json".into() }.to_string(),
        "Missing \"depot\" key from manifest: `/p/package.json`"
    );
    assert_eq!(PackageError::MissingName { root: "/".into() }.to_string(), "Package has no name: `/`");
    assert_eq!(PackageError::MissingPlatform.to_string(), "Missing \"platform\" in the \"depot\" settings");
    assert_eq!(
        PackageError::BadSetting { field: "target".into(), value: "app".into() }.to_string(),
        "Unknown target: app"
    );
    assert_eq!(
        PackageError::UnknownTarget { root: "/p".into() }.to_string(),
        "Could not infer target. Consider adding a \"target\" entry under \"depot\" to: /p/package.json"
    );
}

#[test]
fn workspace_errors_say_what_is_missing() {
    assert_eq!(
        WorkspaceError::RootNotFound { cwd: "/a/b".into() }.to_string(),
        "Could not find workspace root in working dir: /a/b"
    );
    assert_eq!(
        WorkspaceError::OutsideCeiling { cwd: "/a/c".into(), ceiling: "/a/b".into() }.to_string(),
        "Max ancestor `/a/b` is not a prefix of cwd `/a/c`"
    );
    assert_eq!(
        WorkspaceError::PackageNotFound { name: "@s/x".into() }.to_string(),
        "Could not find package with name: @s/x"
    );
    assert_eq!(
        WorkspaceError::MissingExecutable { path: "/ws/node_modules/.bin/tsc".into() }.to_string(),
        "Executable is missing: /ws/node_modules/.bin/tsc"
    );
    assert_eq!(
        WorkspaceError::Graph(GraphError::CycleDetected { node: 0, name: "a".into() }).to_string(),
        "Cycle detected in dependency graph involving node: a"
    );
    assert_eq!(
        WorkspaceError::MisplacedPackage { position: 1 }.to_string(),
        "A package does not stand at the position of its index"
    );
}

#[test]
fn process_errors_name_the_script() {
    assert_eq!(ProcessError::SpawnFailed { script: "tsc".into() }.to_string(), "Failed to spawn process: `tsc`");
    assert_eq!(ProcessError::WaitFailed { script: "tsc".into() }.to_string(), "Process `tsc` failed");
    assert_eq!(
        ProcessError::NonZeroExit { script: "tsc".into(), code: 2 }.to_string(),
        "Process `tsc` exited with non-zero exit code: 2"
    );
    assert_eq!(
        ProcessError::NonZeroExit { script: "x".into(), code: -15 }.to_string(),
        "Process `x` exited with non-zero exit code: -15"
    );
    for code in [0, 7, 10, 1000, 2147483647, -1, -10, -2147483648] {
        assert_eq!(
            ProcessError::NonZeroExit { script: "x".into(), code }.to_string(),
            format!("Process `x` exited with non-zero exit code: {code}")
        );
    }
    assert_eq!(
        ProcessError::NonZeroExit { script: "x".into(), code: i32::MIN }.to_string(),
        "Process `x` exited with non-zero exit code: -2147483648"
    );
    assert_eq!(ProcessError::Signal { script: "vite".into() }.to_string(), "Process `vite` exited due to signal");
}

#[test]
fn command_config_and_new_errors_have_their_words() {
    assert_eq!(CommandError::BadArguments { tool: "vitest".into() }.to_string(), "Failed to parse vitest args");
    assert_eq!(ConfigError::NoHomeDirectory.to_string(), "Could not find home directory");
    assert_eq!(
        ConfigError::MissingRoot { root: "/g".into() }.to_string(),
        "Depot global config directory does not exist: /g"
    );
    assert_eq!(ConfigError::MissingPnpm.to_string(), "pnpm is not installed");
    assert_eq!(
        NewError::WorkspaceInsideWorkspace.to_string(),
        "Cannot create a new workspace inside an existing workspace"
    );
    assert_eq!(NewError::VikeNeedsSite.to_string(), "--vike can only be used with --target site");
    assert_eq!(NewError::SiteNeedsBrowser.to_string(), "Must have platform=browser when target=site");
    assert_eq!(NewError::VikeWithoutReact.to_string(), "Currently must use --react with --vike");
}
