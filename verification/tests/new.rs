use depot::commands::json::Json;
use depot::commands::new::{Content, NewArgs, NewCommand, NewError, NewFile, NewPlan};
use depot::commands::templates;
use depot::workspace::package::{PackageName, Platform, Target};

fn args(name: &str) -> NewArgs {
    NewArgs::with_defaults(PackageName::from_str(name).unwrap())
}

fn text(s: &str) -> Json {
    Json::Text(s.to_string())
}

fn obj(members: Vec<(&str, Json)>) -> Json {
    Json::Object(members.into_iter().map(|(k, v)| (k.to_string(), v)).collect())
}

fn paths(plan: &NewPlan) -> Vec<&str> {
    plan.files.iter().map(|f| f.path.as_str()).collect()
}

fn file<'a>(files: &'a [NewFile], path: &str) -> &'a Content {
    &files.iter().find(|f| f.path == path).unwrap_or_else(|| panic!("no file {path}")).content
}

fn text_of<'a>(files: &'a [NewFile], path: &str) -> &'a str {
    match file(files, path) {
        Content::Text(t) => t.as_str(),
        Content::Document(_) => panic!("{path} is a document"),
    }
}

fn document<'a>(files: &'a [NewFile], path: &str) -> &'a Json {
    match file(files, path) {
        Content::Document(d) => d,
        Content::Text(_) => panic!("{path} is text"),
    }
}

fn installs(plan: &NewPlan) -> Vec<(Vec<&str>, bool)> {
    plan.installs.iter().map(|i| (i.args.iter().map(String::as_str).collect(), i.in_workspace)).collect()
}

fn base_options() -> Vec<(&'static str, Json)> {
    vec![
        ("moduleResolution", text("bundler")),
        ("target", text("es2022")),
        ("declaration", Json::Bool(true)),
        ("allowJs", Json::Bool(true)),
        ("skipLibCheck", Json::Bool(true)),
        ("strict", Json::Bool(true)),
    ]
}

const WS_DEPS: [&str; 6] = ["vite", "vitest", "typescript", "@types/node", "@biomejs/biome", "typedoc"];

#[test]
fn new_workspace_plan() {
    let mut a = args("ws");
    a.workspace = true;
    let plan = NewCommand::new(a, None).run("/tmp").unwrap();
    assert_eq!(plan.root, "/tmp/ws");
    assert_eq!(plan.dirs, vec!["packages"]);
    assert!(!plan.adds_entry_point);
    assert_eq!(
        paths(&plan),
        vec!["package.json", "pnpm-workspace.yaml", "tsconfig.json", "biome.json", "typedoc.json", ".gitignore"]
    );
    let manifest = obj(vec![
        ("private", Json::Bool(true)),
        ("depot", obj(vec![("depot-version", text("0.1.0"))])),
        ("pnpm", obj(vec![("overrides", obj(vec![("rollup", text("npm:@rollup/wasm-node"))]))])),
    ]);
    assert!(document(&plan.files, "package.json").same_as(&manifest));
    assert_eq!(text_of(&plan.files, "pnpm-workspace.yaml"), templates::PNPM_WORKSPACE);
    assert_eq!(text_of(&plan.files, ".gitignore"), "node_modules\ndist\ndocs");
    let tsconfig = obj(vec![("compilerOptions", obj(base_options()))]);
    assert!(document(&plan.files, "tsconfig.json").same_as(&tsconfig));
    let typedoc = obj(vec![
        ("name", text("ws")),
        ("validation", obj(vec![("invalidLink", Json::Bool(true)), ("notExported", Json::Bool(true))])),
        ("entryPointStrategy", text("packages")),
        ("entryPoints", Json::Array(vec![])),
    ]);
    assert!(document(&plan.files, "typedoc.json").same_as(&typedoc));
    let mut add = vec!["add", "--save-dev"];
    add.extend(WS_DEPS);
    add.push("--workspace-root");
    assert_eq!(installs(&plan), vec![(add, false)]);
}

#[test]
fn new_workspace_inside_a_workspace_is_refused() {
    let mut a = args("ws");
    a.workspace = true;
    let r = NewCommand::new(a, Some("/ws".to_string())).run("/ws");
    assert_eq!(r.unwrap_err(), NewError::WorkspaceInsideWorkspace);
}

#[test]
fn new_library_plan() {
    let plan = NewCommand::new(args("foo"), None).run("/tmp").unwrap();
    assert_eq!(plan.root, "/tmp/foo");
    assert_eq!(plan.dirs, vec!["src", "tests"]);
    assert!(!plan.adds_entry_point);
    assert_eq!(
        paths(&plan),
        vec![
            "tests/add.test.ts",
            "typedoc.json",
            "src/lib.ts",
            "package.json",
            "src/bindings/vite.d.ts",
            "tsconfig.json",
            "biome.json",
            "vitest.config.ts",
            ".gitignore",
        ]
    );
    assert_eq!(text_of(&plan.files, "src/lib.ts"), templates::LIB);
    assert_eq!(text_of(&plan.files, "tests/add.test.ts"), templates::TEST);
    assert_eq!(text_of(&plan.files, "src/bindings/vite.d.ts"), "/// <reference types=\"vite/client\" />\n");
    let manifest = obj(vec![
        ("name", text("foo")),
        ("version", text("0.1.0")),
        ("type", text("module")),
        ("main", text("dist/lib.js")),
        ("files", Json::Array(vec![text("dist")])),
        (
            "exports",
            obj(vec![
                (".", obj(vec![("default", text("./dist/lib.js"))])),
                ("./*", obj(vec![("default", text("./dist/*.js"))])),
            ]),
        ),
        (
            "depot",
            obj(vec![("platform", text("browser")), ("target", text("lib")), ("depot-version", text("0.1.0"))]),
        ),
        ("pnpm", obj(vec![("overrides", obj(vec![("rollup", text("npm:@rollup/wasm-node"))]))])),
    ]);
    assert!(document(&plan.files, "package.json").same_as(&manifest), "{:?}", document(&plan.files, "package.json"));
    let mut options = base_options();
    options.push(("outDir", text("dist")));
    let tsconfig = obj(vec![
        ("compilerOptions", obj(options)),
        ("include", Json::Array(vec![text("src")])),
        ("typedocOptions", obj(vec![("entryPoints", Json::Array(vec![text("./src/lib.ts")]))])),
    ]);
    assert!(document(&plan.files, "tsconfig.json").same_as(&tsconfig), "{:?}", document(&plan.files, "tsconfig.json"));
    let typedoc = obj(vec![
        ("name", text("foo")),
        ("validation", obj(vec![("invalidLink", Json::Bool(true)), ("notExported", Json::Bool(true))])),
        ("entryPoints", Json::Array(vec![text("src/lib.ts")])),
    ]);
    assert!(document(&plan.files, "typedoc.json").same_as(&typedoc));
    let expected = r#"/// <reference types="vitest" />
import fs from "node:fs";
import { defineConfig } from "vite";

let manifest = JSON.parse(fs.readFileSync("package.json", "utf-8"));
export default defineConfig(({ mode }) => ({
  define: {
    "process.env.NODE_ENV": JSON.stringify(mode)
  },
  test: {
    environment: "jsdom",
    deps: {
      inline: [/^(?!.*vitest).*$/]
    }
  }
}));
"#;
    assert_eq!(text_of(&plan.files, "vitest.config.ts"), expected);
    let mut ws = vec!["add", "--save-dev"];
    ws.extend(WS_DEPS);
    assert_eq!(installs(&plan), vec![(vec!["add", "--save-dev", "jsdom"], false), (ws, false)]);
}

#[test]
fn new_library_inside_a_workspace() {
    let mut a = args("@scope/foo");
    a.react = true;
    a.offline = true;
    a.prefer_offline = true;
    let plan = NewCommand::new(a, Some("/ws".to_string())).run("/elsewhere").unwrap();
    assert_eq!(plan.root, "/ws/packages/foo");
    assert!(plan.adds_entry_point);
    assert_eq!(
        paths(&plan),
        vec![
            "tests/add.test.ts",
            "src/lib.tsx",
            "package.json",
            "src/bindings/vite.d.ts",
            "tsconfig.json",
            "biome.json",
            "tests/setup.ts",
            "vitest.config.ts",
        ]
    );
    assert_eq!(text_of(&plan.files, "tests/setup.ts"), templates::VITEST_SETUP);
    let tsconfig = obj(vec![
        ("extends", text("../../tsconfig.json")),
        ("include", Json::Array(vec![text("src")])),
        ("compilerOptions", obj(vec![("outDir", text("dist"))])),
        ("typedocOptions", obj(vec![("entryPoints", Json::Array(vec![text("./src/lib.ts")]))])),
    ]);
    assert!(document(&plan.files, "tsconfig.json").same_as(&tsconfig), "{:?}", document(&plan.files, "tsconfig.json"));
    let manifest = document(&plan.files, "package.json");
    match manifest {
        Json::Object(members) => {
            assert!(members[0].1.same_as(&text("@scope/foo")));
            assert_eq!(members.last().unwrap().0, "depot");
        }
        other => panic!("{other:?}"),
    }
    let biome = document(&plan.files, "biome.json");
    let expected_biome = obj(vec![
        ("$schema", text("https://biomejs.dev/schemas/1.8.2/schema.json")),
        (
            "javascript",
            obj(vec![
                ("formatter", obj(vec![("arrowParentheses", text("asNeeded")), ("trailingCommas", text("none"))])),
                ("jsxRuntime", text("reactClassic")),
            ]),
        ),
        ("formatter", obj(vec![("indentStyle", text("space"))])),
        (
            "linter",
            obj(vec![(
                "rules",
                obj(vec![
                    ("recommended", Json::Bool(true)),
                    (
                        "correctness",
                        obj(vec![
                            ("noUnusedImports", text("warn")),
                            ("useExhaustiveDependencies", text("off")),
                            ("useJsxKeyInIterable", text("off")),
                        ]),
                    ),
                    (
                        "style",
                        obj(vec![
                            ("noNonNullAssertion", text("off")),
                            ("useConst", text("off")),
                            ("noUselessElse", text("off")),
                        ]),
                    ),
                    ("complexity", obj(vec![("noBannedTypes", text("off")), ("noForEach", text("off"))])),
                    ("suspicious", obj(vec![("noArrayIndexKey", text("off"))])),
                ]),
            )]),
        ),
    ]);
    assert!(biome.same_as(&expected_biome), "{biome:?}");
    let mut ws = vec!["add", "--save-dev"];
    ws.extend(WS_DEPS);
    ws.extend(["--workspace-root", "--offline", "--prefer-offline"]);
    assert_eq!(
        installs(&plan),
        vec![
            (vec!["add", "--save-peer", "react", "--offline", "--prefer-offline"], false),
            (
                vec![
                    "add",
                    "--save-dev",
                    "jsdom",
                    "react",
                    "react-dom",
                    "@types/react",
                    "@types/react-dom",
                    "@vitejs/plugin-react",
                    "@testing-library/react",
                    "--offline",
                    "--prefer-offline",
                ],
                false,
            ),
            (ws, true),
        ]
    );
}

#[test]
fn new_script_for_node() {
    let mut a = args("my-tool");
    a.target = Target::Script;
    a.platform = Platform::Node;
    let plan = NewCommand::new(a, None).run("/tmp").unwrap();
    assert_eq!(
        paths(&plan),
        vec!["src/main.ts", "package.json", "tsconfig.json", "biome.json", "vite.config.ts", ".gitignore"]
    );
    assert_eq!(text_of(&plan.files, "src/main.ts"), templates::MAIN);
    let expected = r#"import fs from "node:fs";
import { builtinModules } from "node:module";
import { resolve } from "node:path";
import { defineConfig } from "vite";

let manifest = JSON.parse(fs.readFileSync("package.json", "utf-8"));
export default defineConfig(({ mode }) => ({
  build: {
    lib: {
      entry: resolve(__dirname, "src/main.ts"),
      formats: ["cjs"]
    },
    minify: false,
    rollupOptions: {
      external: Object.keys(manifest.dependencies || {}).concat(builtinModules)
    }
  },
  define: {
    "process.env.NODE_ENV": JSON.stringify(mode)
  },
  test: {
    environment: "node",
    deps: {
      inline: [/^(?!.*vitest).*$/]
    }
  },
  resolve: { conditions: ["node"] }
}));
"#;
    assert_eq!(text_of(&plan.files, "vite.config.ts"), expected);
    let manifest = obj(vec![
        ("name", text("my-tool")),
        ("version", text("0.1.0")),
        ("type", text("module")),
        ("bin", obj(vec![("my-tool", text("dist/my-tool.cjs"))])),
        (
            "depot",
            obj(vec![("platform", text("node")), ("target", text("script")), ("depot-version", text("0.1.0"))]),
        ),
        ("pnpm", obj(vec![("overrides", obj(vec![("rollup", text("npm:@rollup/wasm-node"))]))])),
    ]);
    assert!(document(&plan.files, "package.json").same_as(&manifest));
    let mut options = base_options();
    options.push(("noEmit", Json::Bool(true)));
    let tsconfig = obj(vec![("compilerOptions", obj(options)), ("include", Json::Array(vec![text("src")]))]);
    assert!(document(&plan.files, "tsconfig.json").same_as(&tsconfig));
    let mut ws = vec!["add", "--save-dev"];
    ws.extend(WS_DEPS);
    assert_eq!(installs(&plan), vec![(vec!["add", "--save-dev", "vite"], false), (ws, false)]);
}

#[test]
fn new_script_for_the_browser_is_named_after_the_package() {
    let mut a = args("my-tool");
    a.target = Target::Script;
    a.react = true;
    let plan = NewCommand::new(a, None).run("/tmp").unwrap();
    let expected = r#"import fs from "node:fs";
import { resolve } from "node:path";
import react from "@vitejs/plugin-react";
import { defineConfig } from "vite";

let manifest = JSON.parse(fs.readFileSync("package.json", "utf-8"));
export default defineConfig(({ mode }) => ({
  build: {
    lib: {
      entry: resolve(__dirname, "src/main.tsx"),
      name: "MyTool",
      formats: ["iife"]
    },
    rollupOptions: {
      external: Object.keys(manifest.dependencies || {})
    }
  },
  define: {
    "process.env.NODE_ENV": JSON.stringify(mode)
  },
  plugins: [react()],
  test: {
    environment: "jsdom",
    setupFiles: "tests/setup.ts",
    deps: {
      inline: [/^(?!.*vitest).*$/]
    }
  }
}));
"#;
    assert_eq!(text_of(&plan.files, "vite.config.ts"), expected);
    assert_eq!(paths(&plan)[0], "src/main.tsx");
}

#[test]
fn new_site_plan() {
    let mut a = args("site");
    a.target = Target::Site;
    a.sass = true;
    let plan = NewCommand::new(a, None).run("/tmp").unwrap();
    assert_eq!(plan.dirs, vec!["src", "tests", "styles"]);
    assert_eq!(
        paths(&plan),
        vec![
            "index.html",
            "styles/index.scss",
            "src/index.ts",
            "package.json",
            "src/bindings/vite.d.ts",
            "tsconfig.json",
            "biome.json",
            "vite.config.ts",
            ".gitignore",
        ]
    );
    let page = r#"<!DOCTYPE html>
<html lang="en">
  <head>
    <meta charset="UTF-8" />
    <meta name="viewport" content="width=device-width, initial-scale=1.0" />
    <link href="/styles/index.scss" rel="stylesheet" type="text/css" />
  </head>
  <body>
    <div id="root"></div>
    <script type="module" src="/src/index.ts"></script>
  </body>
</html>"#;
    assert_eq!(text_of(&plan.files, "index.html"), page);
    assert_eq!(text_of(&plan.files, "styles/index.scss"), templates::CSS);
    assert_eq!(text_of(&plan.files, "src/index.ts"), templates::BASIC_INDEX);
    let vite = text_of(&plan.files, "vite.config.ts");
    assert!(vite.contains("defineConfig(({ mode }) => ({\n  base: \"./\",\n  define: {\n"), "{vite}");
    let mut ws = vec!["add", "--save-dev"];
    ws.extend(WS_DEPS);
    assert_eq!(installs(&plan), vec![(vec!["add", "--save-dev", "jsdom", "sass", "normalize.css"], false), (ws, false)]);
}

#[test]
fn new_site_with_vike() {
    let mut a = args("site");
    a.target = Target::Site;
    a.vike = true;
    a.react = true;
    let plan = NewCommand::new(a, None).run("/tmp").unwrap();
    assert_eq!(plan.dirs, vec!["src", "tests"]);
    assert_eq!(
        &paths(&plan)[..5],
        &["src/+config.ts", "src/+Head.tsx", "src/base.css", "src/index/+Page.tsx", "src/index/+title.tsx"]
    );
    let head = r#"import React from "react";
import "./base.css";

export let Head = () => (
  <>
    <meta name="viewport" content="width=device-width, initial-scale=1" />
  </>
);
"#;
    assert_eq!(text_of(&plan.files, "src/+Head.tsx"), head);
    let vite = text_of(&plan.files, "vite.config.ts");
    assert!(vite.starts_with(
        "import fs from \"node:fs\";\nimport react from \"@vitejs/plugin-react\";\nimport vike from \"vike/plugin\";\nimport { defineConfig } from \"vite\";\n\n"
    ));
    assert!(vite.contains("\n  plugins: [react(), vike({ prerender: true })],\n"));
    assert!(!vite.contains("base:"));
    let dev = &installs(&plan)[0].0;
    assert_eq!(&dev[dev.len() - 3..], &["vike", "vike-react", "normalize.css"]);
}

#[test]
fn new_package_faults() {
    let mut a = args("p");
    a.vike = true;
    assert_eq!(NewCommand::new(a, None).run("/tmp").unwrap_err(), NewError::VikeNeedsSite);

    let mut a = args("p");
    a.target = Target::Site;
    a.platform = Platform::Node;
    assert_eq!(NewCommand::new(a, None).run("/tmp").unwrap_err(), NewError::SiteNeedsBrowser);

    let mut a = args("p");
    a.target = Target::Site;
    a.vike = true;
    assert_eq!(NewCommand::new(a, None).run("/tmp").unwrap_err(), NewError::VikeWithoutReact);

    let mut a = args("p");
    a.target = Target::Site;
    a.vike = true;
    a.platform = Platform::Node;
    assert_eq!(NewCommand::new(a, None).new_package("/tmp/p".to_string()).unwrap_err(), NewError::SiteNeedsBrowser);
}

#[test]
fn new_imports_are_in_the_order_of_their_packages() {
    let mut a = args("tool");
    a.target = Target::Script;
    a.platform = Platform::Node;
    a.react = true;
    a.vike = true;
    let lines = templates::make_import_lines(&a);
    let names: Vec<PackageName> = lines
        .lines()
        .map(|line| {
            let from = line.split(" from \"").nth(1).unwrap();
            PackageName::from_str(from.trim_end_matches("\";")).unwrap()
        })
        .collect();
    assert_eq!(names.len(), 6);
    for pair in names.windows(2) {
        assert!(pair[0].precedes(&pair[1]) && !pair[1].precedes(&pair[0]), "{pair:?}");
    }
}

#[test]
fn new_package_becomes_an_entry_point_of_the_workspace() {
    let command = NewCommand::new(args("foo"), Some("/ws".to_string()));
    let config = obj(vec![
        ("name", text("ws")),
        ("entryPoints", Json::Array(vec![text("packages/bar")])),
        ("entryPointStrategy", text("packages")),
    ]);
    let expected = obj(vec![
        ("name", text("ws")),
        ("entryPoints", Json::Array(vec![text("packages/bar"), text("packages/foo")])),
        ("entryPointStrategy", text("packages")),
    ]);
    assert!(command.update_typedoc_config(config).unwrap().same_as(&expected));
    assert!(command.update_typedoc_config(obj(vec![("name", text("ws"))])).is_none());
    assert!(command.update_typedoc_config(obj(vec![("entryPoints", text("x"))])).is_none());
    assert!(command.update_typedoc_config(Json::Array(vec![])).is_none());
}

#[test]
fn indent_within_puts_the_prefix_before_each_line() {
    assert_eq!(templates::indent_within("a\n\nb\n", "  ").as_deref(), Some("  a\n\n  b\n"));
    assert_eq!(templates::indent_within("", "  ").as_deref(), Some(""));
    let parts = vec!["a: {\n  b\n}".to_string(), "c".to_string()];
    assert_eq!(templates::indent_and_join(&parts, "  ", ",\n").as_deref(), Some("  a: {\n    b\n  },\n  c"));
    assert_eq!(templates::indent_and_join(&Vec::new(), "  ", ",\n").as_deref(), Some(""));
}

#[test]
fn package_names_with_empty_parts_are_told_apart() {
    let name = |s: &str| PackageName { name: s.to_string(), scope: None };
    assert!(name("a").has_nonempty_parts());
    assert!(name("my-tool-x").has_nonempty_parts());
    assert!(!name("").has_nonempty_parts());
    assert!(!name("-a").has_nonempty_parts());
    assert!(!name("a-").has_nonempty_parts());
    assert!(!name("a--b").has_nonempty_parts());
    assert!(!name("-").has_nonempty_parts());
}

#[test]
fn indent_within_takes_what_a_string_can_hold() {
    assert!(templates::fits("", ""));
    assert!(templates::fits("a\nb", "  "));
    let long = "a\n".repeat(0x0100_0000);
    let prefix = "-".repeat(17);
    assert!(templates::fits(&long, &prefix));
    let out = templates::indent_within(&long, &prefix).unwrap();
    assert_eq!(out.len(), long.len() + 0x0100_0000 * 17);
    assert!(out.starts_with("-----------------a\n-----------------a\n"));

    let mut a = args("tool");
    a.target = Target::Script;
    a.platform = Platform::Node;
    assert!(templates::make_build_entry(&a, "main.ts").is_some());
    assert!(templates::make_vite_text(&a, Some("main.ts")).is_some());
}

#[test]
fn join_with_puts_the_separator_between_the_texts() {
    let texts = |items: &[&str]| items.iter().map(|s| s.to_string()).collect::<Vec<_>>();
    assert_eq!(templates::join_with(&texts(&[]), ", "), "");
    assert_eq!(templates::join_with(&texts(&["a"]), ", "), "a");
    assert_eq!(templates::join_with(&texts(&["a", "", "b"]), ", "), "a, , b");
    assert_eq!(
        templates::indent_all(&texts(&["a\nb", "c"]), "> "),
        Some(texts(&["> a\n> b", "> c"]))
    );
}

#[test]
fn bundler_settings_are_put_around_their_parts() {
    assert_eq!(templates::make_build_around("  a", "  b"), "build: {\n  a\n  b\n}");
    let lib = args("foo");
    assert_eq!(
        templates::make_settings_around(&lib, "  x"),
        "/// <reference types=\"vitest\" />\nimport fs from \"node:fs\";\nimport { defineConfig } from \"vite\";\n\nlet manifest = JSON.parse(fs.readFileSync(\"package.json\", \"utf-8\"));\nexport default defineConfig(({ mode }) => ({\n  x\n}));\n"
    );
    let mut site = args("foo");
    site.target = Target::Site;
    assert!(templates::make_settings_around(&site, "").starts_with("import fs"));
    assert_eq!(
        templates::make_config_entries(&site, "unused"),
        vec![
            "base: \"./\"".to_string(),
            "define: {\n  \"process.env.NODE_ENV\": JSON.stringify(mode)\n}".to_string(),
            "test: {\n  environment: \"jsdom\",\n  deps: {\n    inline: [/^(?!.*vitest).*$/]\n  }\n}".to_string(),
        ]
    );
    let mut script = args("foo");
    script.target = Target::Script;
    script.platform = Platform::Node;
    script.vike = true;
    assert_eq!(
        templates::make_config_entries(&script, "build: {}"),
        vec![
            "build: {}".to_string(),
            "define: {\n  \"process.env.NODE_ENV\": JSON.stringify(mode)\n}".to_string(),
            "plugins: [vike({ prerender: true })]".to_string(),
            "test: {\n  environment: \"node\",\n  deps: {\n    inline: [/^(?!.*vitest).*$/]\n  }\n}".to_string(),
            "resolve: { conditions: [\"node\"] }".to_string(),
        ]
    );
    assert_eq!(
        templates::make_rollup_settings(&script),
        "rollupOptions: {\n  external: Object.keys(manifest.dependencies || {}).concat(builtinModules)\n}"
    );
    assert_eq!(
        templates::make_build_settings(&script, "main.ts"),
        "lib: {\n  entry: resolve(__dirname, \"src/main.ts\"),\n  formats: [\"cjs\"]\n},\nminify: false,"
    );
}
