//! The command that makes a new package or workspace: its arguments, and
//! the files and installations that follow from them.

use crate::commands::json::{
    find_member, items_view, json_merge, member_at, members_view, merged, no_members, object, object_of, put,
    put_flag, put_text, text_list, Json, JsonView,
};
use crate::commands::shell::{push_text, push_texts};
use crate::commands::templates::{
    css_file, css_path, index_html, make_index_html, make_vike_head, make_vite_text, vike_head, vite_text,
    BASIC_INDEX, CSS, LIB, MAIN, PNPM_WORKSPACE, REACT_INDEX, TEST, VIKE_CONFIG, VIKE_PAGE, VIKE_TITLE,
    VITEST_SETUP,
};
use crate::paths::{joined, path_join};
use crate::workspace::package::{
    name_text, parts_nonempty, platform_name, target_name, texts, PackageName, Platform, Target,
};
use vstd::prelude::*;
use vstd::string::StringExecFns;

verus! {

/// Create a new workspace or package
pub struct NewArgs {
    pub name: PackageName,
    /// If a workspace should be created instead of a single package
    pub workspace: bool,
    /// Type of package
    pub target: Target,
    /// Where the package will run
    pub platform: Platform,
    /// Add React as a project dependency
    pub react: bool,
    /// Add Vike as a project dependency
    pub vike: bool,
    /// Add Sass as a project dependency
    pub sass: bool,
    /// Don't attempt to download packages from the web
    pub offline: bool,
    /// Prefer local pnpm cache if available
    pub prefer_offline: bool,
}

/// Why the arguments of the command cannot be followed.
#[derive(Clone, PartialEq, Eq, Debug)]
pub enum NewError {
    /// A workspace was asked for inside a workspace.
    WorkspaceInsideWorkspace,
    /// Vike was asked for with a target that is no site.
    VikeNeedsSite,
    /// A site was asked for with a platform that is not the browser.
    SiteNeedsBrowser,
    /// Vike was asked for without React.
    VikeWithoutReact,
    /// A text of the bundler's settings is longer than a string of this
    /// machine can hold once it is indented.
    TooLong,
}

/// What stands in the way of making a package as the arguments say, if
/// anything does: Vike needs a site, a site needs the browser, and Vike
/// needs React, in this order.
pub open spec fn package_fault(args: NewArgs) -> Option<NewError> {
    if args.vike && !(args.target is Site) {
        Some(NewError::VikeNeedsSite)
    } else if args.target is Site && !(args.platform is Browser) {
        Some(NewError::SiteNeedsBrowser)
    } else if args.target is Site && args.vike && !args.react {
        Some(NewError::VikeWithoutReact)
    } else {
        None
    }
}

/// What stands in the way of following the arguments, if anything does: a
/// workspace cannot be made inside a workspace, and a package has to be one
/// that can be made.
pub open spec fn new_fault(args: NewArgs, inside_workspace: bool) -> Option<NewError> {
    if args.workspace && inside_workspace {
        Some(NewError::WorkspaceInsideWorkspace)
    } else if args.workspace {
        None
    } else {
        package_fault(args)
    }
}

impl NewArgs {
    /// The arguments with the usual choices: a library for the browser,
    /// nothing added.
    pub fn with_defaults(name: PackageName) -> (r: Self)
        ensures
            r.name == name,
            !r.workspace,
            r.target is Lib,
            r.platform is Browser,
            !r.react && !r.vike && !r.sass && !r.offline && !r.prefer_offline,
    {
        NewArgs {
            name,
            workspace: false,
            target: Target::Lib,
            platform: Platform::Browser,
            react: false,
            vike: false,
            sass: false,
            offline: false,
            prefer_offline: false,
        }
    }

    /// Whether the arguments can be followed, given whether the command is
    /// run inside a workspace.
    pub fn check(&self, inside_workspace: bool) -> (r: Result<(), NewError>)
        ensures
            match r {
                Ok(()) => new_fault(*self, inside_workspace) is None,
                Err(e) => new_fault(*self, inside_workspace) == Some(e),
            },
    {
        if self.workspace && inside_workspace {
            Err(NewError::WorkspaceInsideWorkspace)
        } else if self.workspace {
            Ok(())
        } else if self.vike && !self.target.is_site() {
            Err(NewError::VikeNeedsSite)
        } else if self.target.is_site() && !self.platform.is_browser() {
            Err(NewError::SiteNeedsBrowser)
        } else if self.target.is_site() && self.vike && !self.react {
            Err(NewError::VikeWithoutReact)
        } else {
            Ok(())
        }
    }

    /// The directory of what is made: named as the package is, below the
    /// packages of the workspace at `ws_root` if the command is run inside
    /// one, else below the working directory.
    pub fn root(&self, ws_root: Option<&str>, cwd: &str) -> (r: String)
        ensures
            r@ == joined(
                match ws_root {
                    Some(ws) => joined(ws@, "packages"@),
                    None => cwd@,
                },
                self.name@.name,
            ),
    {
        match ws_root {
            Some(ws) => {
                let parent = path_join(ws, "packages");
                path_join(parent.as_str(), self.name.name.as_str())
            },
            None => path_join(cwd, self.name.name.as_str()),
        }
    }
}

/// What is said to the user of arguments that cannot be followed.
pub open spec fn new_error_text(e: NewError) -> Seq<char> {
    match e {
        NewError::WorkspaceInsideWorkspace => "Cannot create a new workspace inside an existing workspace"@,
        NewError::VikeNeedsSite => "--vike can only be used with --target site"@,
        NewError::SiteNeedsBrowser => "Must have platform=browser when target=site"@,
        NewError::VikeWithoutReact => "Currently must use --react with --vike"@,
        NewError::TooLong => "The name of the package is too long"@,
    }
}

impl NewError {
    /// What is said to the user.
    pub fn to_string(&self) -> (r: String)
        ensures
            r@ == new_error_text(*self),
    {
        match self {
            NewError::WorkspaceInsideWorkspace => String::from_str("Cannot create a new workspace inside an existing workspace"),
            NewError::VikeNeedsSite => String::from_str("--vike can only be used with --target site"),
            NewError::SiteNeedsBrowser => String::from_str("Must have platform=browser when target=site"),
            NewError::VikeWithoutReact => String::from_str("Currently must use --react with --vike"),
            NewError::TooLong => String::from_str("The name of the package is too long"),
        }
    }
}

/// What a new file holds.
#[derive(Debug)]
pub enum Content {
    /// Text, written as it is.
    Text(String),
    /// A JSON document, written with indentation.
    Document(Json),
}

/// What a new file holds, as plain data.
pub enum ContentView {
    Text(Seq<char>),
    Document(JsonView),
}

impl View for Content {
    type V = ContentView;

    open spec fn view(&self) -> ContentView {
        match self {
            Content::Text(s) => ContentView::Text(s@),
            Content::Document(d) => ContentView::Document(d@),
        }
    }
}

/// A file to be written, by its path below the new directory.
#[derive(Debug)]
pub struct NewFile {
    pub path: String,
    pub content: Content,
}

/// A file to be written, as plain data.
pub struct FileView {
    pub path: Seq<char>,
    pub content: ContentView,
}

impl View for NewFile {
    type V = FileView;

    open spec fn view(&self) -> FileView {
        FileView { path: self.path@, content: self.content@ }
    }
}

/// Files as plain data.
pub open spec fn files_view(files: Seq<NewFile>) -> Seq<FileView> {
    files.map_values(|f: NewFile| f@)
}

/// A file that holds text.
pub open spec fn text_file(path: Seq<char>, text: Seq<char>) -> FileView {
    FileView { path, content: ContentView::Text(text) }
}

/// A file that holds a JSON document.
pub open spec fn document_file(path: Seq<char>, document: JsonView) -> FileView {
    FileView { path, content: ContentView::Document(document) }
}

/// No files yet.
pub fn no_files() -> (r: Vec<NewFile>)
    ensures
        files_view(r@) == Seq::<FileView>::empty(),
{
    let r: Vec<NewFile> = Vec::new();
    assert(files_view(r@) =~= Seq::<FileView>::empty());
    r
}

/// Adds a file after the others.
pub fn add_file(files: &mut Vec<NewFile>, file: NewFile)
    ensures
        files_view(final(files)@) == files_view(old(files)@).push(file@),
{
    assert(files_view(files@.push(file)) =~= files_view(files@).push(file@));
    files.push(file);
}

/// Adds a file that holds the text `text` after the others.
pub fn add_text(files: &mut Vec<NewFile>, path: &str, text: &str)
    ensures
        files_view(final(files)@) == files_view(old(files)@).push(text_file(path@, text@)),
{
    add_file(files, NewFile { path: String::from_str(path), content: Content::Text(String::from_str(text)) });
}

/// Adds a file that holds the document `document` after the others.
pub fn add_document(files: &mut Vec<NewFile>, path: &str, document: Json)
    ensures
        files_view(final(files)@) == files_view(old(files)@).push(document_file(path@, document@)),
{
    add_file(files, NewFile { path: String::from_str(path), content: Content::Document(document) });
}

/// Adds the files of `more` after the others, in their order.
pub fn add_files(files: &mut Vec<NewFile>, more: Vec<NewFile>)
    ensures
        files_view(final(files)@) == files_view(old(files)@) + files_view(more@),
{
    let mut rest = more;
    assert(files_view(files@ + rest@) =~= files_view(files@) + files_view(rest@));
    files.append(&mut rest);
}

/// An object with one member.
pub open spec fn one(key: Seq<char>, value: JsonView) -> JsonView {
    JsonView::Object(seq![(key, value)])
}

/// What the type checker is told in every project.
pub open spec fn tsconfig_base() -> JsonView {
    one(
        "compilerOptions"@,
        JsonView::Object(
            Seq::empty().push(("moduleResolution"@, JsonView::Text("bundler"@))).push(
                ("target"@, JsonView::Text("es2022"@)),
            ).push(("declaration"@, JsonView::Bool(true))).push(("allowJs"@, JsonView::Bool(true))).push(
                ("skipLibCheck"@, JsonView::Bool(true)),
            ).push(("strict"@, JsonView::Bool(true))),
        ),
    )
}

/// What the type checker is told of a target: a library is compiled into
/// `dist` and documented from its entry point, anything else is only checked.
pub open spec fn tsconfig_for_target(target: Target) -> JsonView {
    if target is Lib {
        JsonView::Object(
            Seq::empty().push(("compilerOptions"@, one("outDir"@, JsonView::Text("dist"@)))).push(
                ("typedocOptions"@, one("entryPoints"@, JsonView::Array(seq![JsonView::Text("./src/lib.ts"@)]))),
            ),
        )
    } else {
        one("compilerOptions"@, one("noEmit"@, JsonView::Bool(true)))
    }
}

/// The settings of the type checker: those of every project, with JSX where
/// React is used; a package inside a workspace extends the settings of the
/// workspace instead; and a package names its sources and what its target asks for.
pub open spec fn tsconfig_document(args: NewArgs, inside_workspace: bool) -> JsonView {
    let shared = if args.react {
        merged(tsconfig_base(), one("compilerOptions"@, one("jsx"@, JsonView::Text("react"@))))
    } else {
        tsconfig_base()
    };
    if args.workspace {
        shared
    } else {
        let own = if inside_workspace {
            one("extends"@, JsonView::Text("../../tsconfig.json"@))
        } else {
            shared
        };
        let with_sources = merged(own, one("include"@, JsonView::Array(seq![JsonView::Text("src"@)])));
        merged(with_sources, tsconfig_for_target(args.target))
    }
}

/// The files for the type checker: its settings, and before them, for a
/// package that runs in the browser, the types of the bundler's client.
pub open spec fn tsconfig_files(args: NewArgs, inside_workspace: bool) -> Seq<FileView> {
    let bindings = if !args.workspace && args.platform is Browser {
        seq![text_file("src/bindings/vite.d.ts"@, VITE_TYPES@)]
    } else {
        Seq::empty()
    };
    bindings.push(document_file("tsconfig.json"@, tsconfig_document(args, inside_workspace)))
}

/// The reference to the types of the bundler's client.
pub const VITE_TYPES: &'static str = "/// <reference types=\"vite/client\" />\n";

/// The rules of the linter in every project.
pub open spec fn biome_rules() -> JsonView {
    JsonView::Object(
        Seq::empty().push(("recommended"@, JsonView::Bool(true))).push(
            ("correctness"@, one("noUnusedImports"@, JsonView::Text("warn"@))),
        ).push(
            (
                "style"@,
                JsonView::Object(
                    Seq::empty().push(("noNonNullAssertion"@, JsonView::Text("off"@))).push(
                        ("useConst"@, JsonView::Text("off"@)),
                    ).push(("noUselessElse"@, JsonView::Text("off"@))),
                ),
            ),
        ).push(
            (
                "complexity"@,
                JsonView::Object(
                    Seq::empty().push(("noBannedTypes"@, JsonView::Text("off"@))).push(
                        ("noForEach"@, JsonView::Text("off"@)),
                    ),
                ),
            ),
        ),
    )
}

/// The settings of the linter and formatter in every project.
pub open spec fn biome_base() -> JsonView {
    JsonView::Object(
        Seq::empty().push(("$schema"@, JsonView::Text("https://biomejs.dev/schemas/1.8.2/schema.json"@))).push(
            (
                "javascript"@,
                one(
                    "formatter"@,
                    JsonView::Object(
                        Seq::empty().push(("arrowParentheses"@, JsonView::Text("asNeeded"@))).push(
                            ("trailingCommas"@, JsonView::Text("none"@)),
                        ),
                    ),
                ),
            ),
        ).push(("formatter"@, one("indentStyle"@, JsonView::Text("space"@)))).push(
            ("linter"@, one("rules"@, biome_rules())),
        ),
    )
}

/// What React adds to the settings of the linter and formatter.
pub open spec fn biome_for_react() -> JsonView {
    JsonView::Object(
        Seq::empty().push(("javascript"@, one("jsxRuntime"@, JsonView::Text("reactClassic"@)))).push(
            (
                "linter"@,
                one(
                    "rules"@,
                    JsonView::Object(
                        Seq::empty().push(
                            (
                                "correctness"@,
                                JsonView::Object(
                                    Seq::empty().push(("useExhaustiveDependencies"@, JsonView::Text("off"@))).push(
                                        ("useJsxKeyInIterable"@, JsonView::Text("off"@)),
                                    ),
                                ),
                            ),
                        ).push(("suspicious"@, one("noArrayIndexKey"@, JsonView::Text("off"@)))),
                    ),
                ),
            ),
        ),
    )
}

/// The settings of the linter and formatter.
pub open spec fn biome_document(args: NewArgs) -> JsonView {
    if args.react {
        merged(biome_base(), biome_for_react())
    } else {
        biome_base()
    }
}

/// The settings of the documentation generator: a workspace documents its
/// packages, of which there are none yet; a package documents its entry point.
pub open spec fn typedoc_document(args: NewArgs) -> JsonView {
    let base = JsonView::Object(
        Seq::empty().push(("name"@, JsonView::Text(args.name@.name))).push(
            (
                "validation"@,
                JsonView::Object(
                    Seq::empty().push(("invalidLink"@, JsonView::Bool(true))).push(
                        ("notExported"@, JsonView::Bool(true)),
                    ),
                ),
            ),
        ),
    );
    if args.workspace {
        merged(
            base,
            JsonView::Object(
                Seq::empty().push(("entryPointStrategy"@, JsonView::Text("packages"@))).push(
                    ("entryPoints"@, JsonView::Array(Seq::empty())),
                ),
            ),
        )
    } else {
        merged(base, one("entryPoints"@, JsonView::Array(seq![JsonView::Text("src/lib.ts"@)])))
    }
}

/// What version control is told to leave out.
pub const GITIGNORE: &'static str = "node_modules\ndist\ndocs";

/// An array without items.
fn no_items() -> (r: Json)
    ensures
        r@ == JsonView::Array(Seq::empty()),
{
    let items: Vec<Json> = Vec::new();
    assert(items_view(items@) =~= Seq::<JsonView>::empty());
    Json::Array(items)
}

/// A new package or workspace to be made.
pub struct NewCommand {
    pub args: NewArgs,
    /// The root of the workspace in which the command is run, if it is run in one.
    pub ws_root: Option<String>,
}

impl NewCommand {
    /// Whether the command is run inside a workspace.
    pub open spec fn inside_workspace(&self) -> bool {
        self.ws_root is Some
    }

    /// The command with these arguments, run in the workspace at `ws_root` if
    /// there is one.
    pub fn new(args: NewArgs, ws_root: Option<String>) -> (r: Self)
        ensures
            r.args == args,
            r.ws_root == ws_root,
    {
        NewCommand { args, ws_root }
    }

    /// The files for the type checker.
    pub fn make_tsconfig(&self) -> (files: Vec<NewFile>)
        ensures
            files_view(files@) == tsconfig_files(self.args, self.inside_workspace()),
    {
        let mut files = no_files();
        let mut options = no_members();
        put_text(&mut options, "moduleResolution", "bundler");
        put_text(&mut options, "target", "es2022");
        put_flag(&mut options, "declaration", true);
        put_flag(&mut options, "allowJs", true);
        put_flag(&mut options, "skipLibCheck", true);
        put_flag(&mut options, "strict", true);
        let mut config = object_of("compilerOptions", object(options));
        if self.args.react {
            let mut jsx = no_members();
            put_text(&mut jsx, "jsx", "react");
            json_merge(&mut config, object_of("compilerOptions", object(jsx)));
        }
        if !self.args.workspace {
            if self.ws_root.is_some() {
                let mut extends = no_members();
                put_text(&mut extends, "extends", "../../tsconfig.json");
                config = object(extends);
            }
            json_merge(&mut config, object_of("include", text_list("src")));
            match self.args.target {
                Target::Lib => {
                    let mut options = no_members();
                    put_text(&mut options, "outDir", "dist");
                    let mut for_lib = no_members();
                    put(&mut for_lib, "compilerOptions", object(options));
                    put(&mut for_lib, "typedocOptions", object_of("entryPoints", text_list("./src/lib.ts")));
                    json_merge(&mut config, object(for_lib));
                },
                Target::Script | Target::Site => {
                    let mut options = no_members();
                    put_flag(&mut options, "noEmit", true);
                    json_merge(&mut config, object_of("compilerOptions", object(options)));
                },
            }
            if self.args.platform.is_browser() {
                add_text(&mut files, "src/bindings/vite.d.ts", VITE_TYPES);
            }
        }
        add_document(&mut files, "tsconfig.json", config);
        files
    }

    /// The settings of the linter and formatter, as a file.
    pub fn make_biome_config(&self) -> (files: Vec<NewFile>)
        ensures
            files_view(files@) == seq![document_file("biome.json"@, biome_document(self.args))],
    {
        let mut formatter = no_members();
        put_text(&mut formatter, "arrowParentheses", "asNeeded");
        put_text(&mut formatter, "trailingCommas", "none");
        let mut indent = no_members();
        put_text(&mut indent, "indentStyle", "space");
        let mut correctness = no_members();
        put_text(&mut correctness, "noUnusedImports", "warn");
        let mut style = no_members();
        put_text(&mut style, "noNonNullAssertion", "off");
        put_text(&mut style, "useConst", "off");
        put_text(&mut style, "noUselessElse", "off");
        let mut complexity = no_members();
        put_text(&mut complexity, "noBannedTypes", "off");
        put_text(&mut complexity, "noForEach", "off");
        let mut rules = no_members();
        put_flag(&mut rules, "recommended", true);
        put(&mut rules, "correctness", object(correctness));
        put(&mut rules, "style", object(style));
        put(&mut rules, "complexity", object(complexity));
        let mut members = no_members();
        put_text(&mut members, "$schema", "https://biomejs.dev/schemas/1.8.2/schema.json");
        put(&mut members, "javascript", object_of("formatter", object(formatter)));
        put(&mut members, "formatter", object(indent));
        put(&mut members, "linter", object_of("rules", object(rules)));
        let mut config = object(members);
        if self.args.react {
            let mut runtime = no_members();
            put_text(&mut runtime, "jsxRuntime", "reactClassic");
            let mut correctness = no_members();
            put_text(&mut correctness, "useExhaustiveDependencies", "off");
            put_text(&mut correctness, "useJsxKeyInIterable", "off");
            let mut suspicious = no_members();
            put_text(&mut suspicious, "noArrayIndexKey", "off");
            let mut rules = no_members();
            put(&mut rules, "correctness", object(correctness));
            put(&mut rules, "suspicious", object(suspicious));
            let mut for_react = no_members();
            put(&mut for_react, "javascript", object(runtime));
            put(&mut for_react, "linter", object_of("rules", object(rules)));
            json_merge(&mut config, object(for_react));
        }
        let mut files = no_files();
        add_document(&mut files, "biome.json", config);
        files
    }

    /// The settings of the documentation generator, as a file.
    pub fn make_typedoc_config(&self) -> (files: Vec<NewFile>)
        ensures
            files_view(files@) == seq![document_file("typedoc.json"@, typedoc_document(self.args))],
    {
        let mut validation = no_members();
        put_flag(&mut validation, "invalidLink", true);
        put_flag(&mut validation, "notExported", true);
        let mut members = no_members();
        put_text(&mut members, "name", self.args.name.name.as_str());
        put(&mut members, "validation", object(validation));
        let mut config = object(members);
        if self.args.workspace {
            let mut more = no_members();
            put_text(&mut more, "entryPointStrategy", "packages");
            put(&mut more, "entryPoints", no_items());
            json_merge(&mut config, object(more));
        } else {
            json_merge(&mut config, object_of("entryPoints", text_list("src/lib.ts")));
        }
        let mut files = no_files();
        add_document(&mut files, "typedoc.json", config);
        files
    }

    /// What version control is told to leave out, as a file.
    pub fn make_gitignore() -> (files: Vec<NewFile>)
        ensures
            files_view(files@) == seq![text_file(".gitignore"@, GITIGNORE@)],
    {
        let mut files = no_files();
        add_text(&mut files, ".gitignore", GITIGNORE);
        files
    }
}

/// The version of this tool, which is written into what it makes.
pub const DEPOT_VERSION: &'static str = "0.1.0";

/// What the package manager is told to take in place of the bundler's
/// native core.
pub open spec fn rollup_override() -> JsonView {
    one("overrides"@, one("rollup"@, JsonView::Text("npm:@rollup/wasm-node"@)))
}

/// The manifest of a new workspace.
pub open spec fn workspace_manifest() -> JsonView {
    JsonView::Object(
        Seq::empty().push(("private"@, JsonView::Bool(true))).push(
            ("depot"@, one("depot-version"@, JsonView::Text(DEPOT_VERSION@))),
        ).push(("pnpm"@, rollup_override())),
    )
}

/// The build settings in the manifest of a new package.
pub open spec fn package_settings(args: NewArgs) -> JsonView {
    JsonView::Object(
        Seq::empty().push(
("platform"@, JsonView::Text(platform_name(args.platform))),
        ).push(("target"@, JsonView::Text(target_name(args.target)))).push(
            ("depot-version"@, JsonView::Text(DEPOT_VERSION@)),
        ),
    )
}

/// What a library exports: its entry point, and every module beside it.
pub open spec fn library_exports() -> JsonView {
    JsonView::Object(
        Seq::empty().push(("."@, one("default"@, JsonView::Text("./dist/lib.js"@)))).push(
            ("./*"@, one("default"@, JsonView::Text("./dist/*.js"@))),
        ),
    )
}

/// The manifest of a new package: its name, its version and its kind of
/// module; for a script on Node the program it installs, for a library what
/// it exports; its build settings; and outside a workspace what the package
/// manager takes in place of the bundler's native core.
pub open spec fn package_manifest(args: NewArgs, inside_workspace: bool) -> JsonView {
    let start = Seq::empty().push(("name"@, JsonView::Text(name_text(args.name@)))).push(
        ("version"@, JsonView::Text("0.1.0"@)),
    ).push(("type"@, JsonView::Text("module"@)));
    let own = match args.target {
        Target::Script => if args.platform is Node {
            start.push(
                ("bin"@, one(args.name@.name, JsonView::Text("dist/"@ + name_text(args.name@) + ".cjs"@))),
            )
        } else {
            start
        },
        Target::Lib => start.push(("main"@, JsonView::Text("dist/lib.js"@))).push(
            ("files"@, JsonView::Array(seq![JsonView::Text("dist"@)])),
        ).push(("exports"@, library_exports())),
        Target::Site => start,
    };
    let with_settings = own.push(("depot"@, package_settings(args)));
    JsonView::Object(
        if inside_workspace {
            with_settings
        } else {
            with_settings.push(("pnpm"@, rollup_override()))
        },
    )
}

/// What every project needs to be built, tested, checked, formatted and
/// documented.
pub open spec fn ws_dependencies() -> Seq<Seq<char>> {
    Seq::empty().push("vite"@).push("vitest"@).push("typescript"@).push("@types/node"@).push(
        "@biomejs/biome"@,
    ).push("typedoc"@)
}

/// What a new package needs while it is developed.
pub open spec fn dev_dependencies(args: NewArgs) -> Seq<Seq<char>> {
    let first: Seq<Seq<char>> = if args.platform is Browser {
        Seq::empty().push("jsdom"@)
    } else {
        Seq::empty()
    };
    let react = if args.react {
        first.push("react"@).push("react-dom"@).push("@types/react"@).push("@types/react-dom"@).push(
            "@vitejs/plugin-react"@,
        ).push("@testing-library/react"@)
    } else {
        first
    };
    let vike = if args.vike && args.react {
        react.push("vike"@).push("vike-react"@)
    } else if args.vike {
        react.push("vike"@)
    } else {
        react
    };
    let sass = if args.sass {
        vike.push("sass"@)
    } else {
        vike
    };
    match args.target {
        Target::Site => sass.push("normalize.css"@),
        Target::Script => if args.platform is Node {
            sass.push("vite"@)
        } else {
            sass
        },
        Target::Lib => sass,
    }
}

/// What a new package needs from whoever uses it: React, for a library that
/// uses it.
pub open spec fn peer_dependencies(args: NewArgs) -> Seq<Seq<char>> {
    if args.target is Lib && args.react {
        Seq::empty().push("react"@)
    } else {
        Seq::empty()
    }
}

/// The arguments with which the package manager adds `deps`, kept as `flag`
/// says.
pub open spec fn add_args(args: NewArgs, flag: Seq<char>, deps: Seq<Seq<char>>, to_workspace_root: bool) -> Seq<
    Seq<char>,
> {
    let start = Seq::empty().push("add"@).push(flag) + deps;
    let at_root = if to_workspace_root {
        start.push("--workspace-root"@)
    } else {
        start
    };
    let offline = if args.offline {
        at_root.push("--offline"@)
    } else {
        at_root
    };
    if args.prefer_offline {
        offline.push("--prefer-offline"@)
    } else {
        offline
    }
}

/// One run of the package manager.
#[derive(Debug)]
pub struct Install {
    pub args: Vec<String>,
    /// Whether it runs at the root of the workspace around the new package,
    /// not in the new directory.
    pub in_workspace: bool,
}

/// One run of the package manager, as plain data.
pub struct InstallView {
    pub args: Seq<Seq<char>>,
    pub in_workspace: bool,
}

impl View for Install {
    type V = InstallView;

    open spec fn view(&self) -> InstallView {
        InstallView { args: texts(self.args@), in_workspace: self.in_workspace }
    }
}

/// Runs of the package manager as plain data.
pub open spec fn installs_view(installs: Seq<Install>) -> Seq<InstallView> {
    installs.map_values(|i: Install| i@)
}

/// What is to be done to make a new package or workspace.
#[derive(Debug)]
pub struct NewPlan {
    /// The directory that is made first.
    pub root: String,
    /// The directories that are made in it.
    pub dirs: Vec<String>,
    /// Whether the documentation settings of the workspace around the new
    /// package get the package as an entry point.
    pub adds_entry_point: bool,
    /// The files that are written, each in a directory that is made if it is
    /// missing.
    pub files: Vec<NewFile>,
    /// The runs of the package manager that follow.
    pub installs: Vec<Install>,
}

/// What is to be done, as plain data.
pub struct PlanView {
    pub root: Seq<char>,
    pub dirs: Seq<Seq<char>>,
    pub adds_entry_point: bool,
    pub files: Seq<FileView>,
    pub installs: Seq<InstallView>,
}

impl View for NewPlan {
    type V = PlanView;

    open spec fn view(&self) -> PlanView {
        PlanView {
            root: self.root@,
            dirs: texts(self.dirs@),
            adds_entry_point: self.adds_entry_point,
            files: files_view(self.files@),
            installs: installs_view(self.installs@),
        }
    }
}

/// The directory of what is made.
pub open spec fn new_root(args: NewArgs, ws_root: Option<Seq<char>>, cwd: Seq<char>) -> Seq<char> {
    joined(
        match ws_root {
            Some(ws) => joined(ws, "packages"@),
            None => cwd,
        },
        args.name@.name,
    )
}

/// The files of a new workspace.
pub open spec fn workspace_files(args: NewArgs, inside_workspace: bool) -> Seq<FileView> {
    Seq::empty().push(document_file("package.json"@, workspace_manifest())).push(
        text_file("pnpm-workspace.yaml"@, PNPM_WORKSPACE@),
    ) + tsconfig_files(args, inside_workspace) + seq![document_file("biome.json"@, biome_document(args))]
        + seq![document_file("typedoc.json"@, typedoc_document(args))] + seq![
        text_file(".gitignore"@, GITIGNORE@),
    ]
}

/// What is done to make a new workspace at `root`.
pub open spec fn workspace_plan(args: NewArgs, inside_workspace: bool, root: Seq<char>) -> PlanView {
    PlanView {
        root,
        dirs: Seq::empty().push("packages"@),
        adds_entry_point: false,
        files: workspace_files(args, inside_workspace),
        installs: Seq::empty().push(
            InstallView { args: add_args(args, "--save-dev"@, ws_dependencies(), true), in_workspace: false },
        ),
    }
}

/// The name of the entry point of a new package, if it has one file as
/// its entry point.
pub open spec fn entry_point(args: NewArgs) -> Option<Seq<char>> {
    match args.target {
        Target::Site => None,
        Target::Script => Some(
            if args.react {
                "main.tsx"@
            } else {
                "main.ts"@
            },
        ),
        Target::Lib => Some(
            if args.react {
                "lib.tsx"@
            } else {
                "lib.ts"@
            },
        ),
    }
}

/// The sources of a new package: for a site its pages and its style sheet,
/// for a script its entry point, and for a library a test, outside a
/// workspace the documentation settings, and its entry point.
pub open spec fn source_files(args: NewArgs, inside_workspace: bool) -> Seq<FileView> {
    match args.target {
        Target::Site => {
            let css = css_file(args.vike, args.sass);
            if args.vike {
                Seq::empty().push(text_file("src/+config.ts"@, VIKE_CONFIG@)).push(
                    text_file("src/+Head.tsx"@, vike_head(css)),
                ).push(text_file("src/"@ + css, CSS@)).push(text_file("src/index/+Page.tsx"@, VIKE_PAGE@)).push(
                    text_file("src/index/+title.tsx"@, VIKE_TITLE@),
                )
            } else if args.react {
                Seq::empty().push(text_file("index.html"@, index_html("index.tsx"@, css))).push(
                    text_file("styles/"@ + css, CSS@),
                ).push(text_file("src/index.tsx"@, REACT_INDEX@))
            } else {
                Seq::empty().push(text_file("index.html"@, index_html("index.ts"@, css))).push(
                    text_file("styles/"@ + css, CSS@),
                ).push(text_file("src/index.ts"@, BASIC_INDEX@))
            }
        },
        Target::Script => Seq::empty().push(
            text_file(
                if args.react {
                    "src/main.tsx"@
                } else {
                    "src/main.ts"@
                },
                MAIN@,
            ),
        ),
        Target::Lib => {
            let test: Seq<FileView> = Seq::empty().push(text_file("tests/add.test.ts"@, TEST@));
            let documented = if inside_workspace {
                test
            } else {
                test + seq![document_file("typedoc.json"@, typedoc_document(args))]
            };
            documented.push(
                text_file(
                    if args.react {
                        "src/lib.tsx"@
                    } else {
                        "src/lib.ts"@
                    },
                    LIB@,
                ),
            )
        },
    }
}

/// The file of the bundler's settings, where `text` is what it holds: a
/// library has it for its tests only.
pub open spec fn vite_files(args: NewArgs, text: Seq<char>) -> Seq<FileView> {
    let setup: Seq<FileView> = if args.react {
        Seq::empty().push(text_file("tests/setup.ts"@, VITEST_SETUP@))
    } else {
        Seq::empty()
    };
    setup.push(
        text_file(
            if args.target is Lib {
                "vitest.config.ts"@
            } else {
                "vite.config.ts"@
            },
            text,
        ),
    )
}

/// The files of a new package, where `vite` is the text of the bundler's
/// settings: the sources, the manifest, and the settings of the tools;
/// outside a workspace also what version control leaves out.
pub open spec fn package_files(args: NewArgs, inside_workspace: bool, vite: Seq<char>) -> Seq<FileView> {
    let files = source_files(args, inside_workspace).push(
        document_file("package.json"@, package_manifest(args, inside_workspace)),
    ) + tsconfig_files(args, inside_workspace) + seq![document_file("biome.json"@, biome_document(args))]
        + vite_files(args, vite);
    if inside_workspace {
        files
    } else {
        files + seq![text_file(".gitignore"@, GITIGNORE@)]
    }
}

/// The directories of a new package.
pub open spec fn package_dirs(args: NewArgs) -> Seq<Seq<char>> {
    let dirs = Seq::empty().push("src"@).push("tests"@);
    if args.target is Site && !args.vike {
        dirs.push("styles"@)
    } else {
        dirs
    }
}

/// The runs of the package manager for a new package: what its users need,
/// what its development needs, and what every project needs, which a
/// workspace holds at its root.
pub open spec fn package_installs(args: NewArgs, inside_workspace: bool) -> Seq<InstallView> {
    let none: Seq<InstallView> = Seq::empty();
    let peer = if peer_dependencies(args).len() > 0 {
        none.push(
            InstallView { args: add_args(args, "--save-peer"@, peer_dependencies(args), false), in_workspace: false },
        )
    } else {
        none
    };
    let dev = if dev_dependencies(args).len() > 0 {
        peer.push(
            InstallView { args: add_args(args, "--save-dev"@, dev_dependencies(args), false), in_workspace: false },
        )
    } else {
        peer
    };
    dev.push(
        InstallView {
            args: add_args(args, "--save-dev"@, ws_dependencies(), inside_workspace),
            in_workspace: inside_workspace,
        },
    )
}

/// What is done to make a new package at `root`, where `vite` is the text
/// of the bundler's settings.
pub open spec fn package_plan(args: NewArgs, inside_workspace: bool, root: Seq<char>, vite: Seq<char>) -> PlanView {
    PlanView {
        root,
        dirs: package_dirs(args),
        adds_entry_point: args.target is Lib && inside_workspace,
        files: package_files(args, inside_workspace, vite),
        installs: package_installs(args, inside_workspace),
    }
}

/// What making a package at `root` comes to: the fault in the arguments,
/// or that the bundler's settings cannot be written, or what is to be done.
pub open spec fn package_outcome(args: NewArgs, inside_workspace: bool, root: Seq<char>) -> Result<
    PlanView,
    NewError,
> {
    match package_fault(args) {
        Some(e) => Err(e),
        None => match vite_text(
            args,
            match entry_point(args) {
                Some(e) => e,
                None => Seq::empty(),
            },
        ) {
            Some(vite) => Ok(package_plan(args, inside_workspace, root, vite)),
            None => Err(NewError::TooLong),
        },
    }
}

/// What the command comes to when it is run in the directory `cwd`: a
/// workspace is not made inside a workspace; anything else is made in a
/// directory of its own.
pub open spec fn new_outcome(args: NewArgs, ws_root: Option<Seq<char>>, cwd: Seq<char>) -> Result<
    PlanView,
    NewError,
> {
    let inside = ws_root is Some;
    let root = new_root(args, ws_root, cwd);
    if args.workspace && inside {
        Err(NewError::WorkspaceInsideWorkspace)
    } else if args.workspace {
        Ok(workspace_plan(args, inside, root))
    } else {
        package_outcome(args, inside, root)
    }
}

/// The plan as plain data, or the error.
pub open spec fn outcome_view(r: Result<NewPlan, NewError>) -> Result<PlanView, NewError> {
    match r {
        Ok(plan) => Ok(plan@),
        Err(e) => Err(e),
    }
}

/// Whether a package with these arguments gets its name as a name in the
/// browser, for which no part of the name between hyphens may be empty.
pub open spec fn needs_global_name(args: NewArgs) -> bool {
    !args.workspace && package_fault(args) is None && args.target is Script && args.platform is Browser
}

/// The documentation settings `config` of a workspace with the package
/// `name` as one more entry point, if the settings are an object whose entry
/// points are an array.
pub open spec fn with_entry_point(config: JsonView, name: Seq<char>) -> Option<JsonView> {
    match config {
        JsonView::Object(members) => match member_at(members, "entryPoints"@) {
            Some(i) => match members[i].1 {
                JsonView::Array(items) => Some(
                    JsonView::Object(
                        members.update(
                            i,
                            ("entryPoints"@, JsonView::Array(items.push(JsonView::Text("packages/"@ + name)))),
                        ),
                    ),
                ),
                _ => None,
            },
            None => None,
        },
        _ => None,
    }
}

/// A value that may be missing, as plain data.
pub open spec fn value_view(value: Option<Json>) -> Option<JsonView> {
    match value {
        Some(v) => Some(v@),
        None => None,
    }
}

/// No runs of the package manager yet.
fn no_installs() -> (r: Vec<Install>)
    ensures
        installs_view(r@) == Seq::<InstallView>::empty(),
{
    let r: Vec<Install> = Vec::new();
    assert(installs_view(r@) =~= Seq::<InstallView>::empty());
    r
}

/// Adds a run of the package manager after the others.
fn add_install(installs: &mut Vec<Install>, install: Install)
    ensures
        installs_view(final(installs)@) == installs_view(old(installs)@).push(install@),
{
    assert(installs_view(installs@.push(install)) =~= installs_view(installs@).push(install@));
    installs.push(install);
}

/// No texts yet.
fn no_texts() -> (r: Vec<String>)
    ensures
        texts(r@) == Seq::<Seq<char>>::empty(),
{
    let r: Vec<String> = Vec::new();
    assert(texts(r@) =~= Seq::<Seq<char>>::empty());
    r
}

/// `start` and then `end`.
fn text_of(start: &str, end: &str) -> (r: String)
    ensures
        r@ == start@ + end@,
{
    let mut out = String::from_str(start);
    out.append(end);
    out
}

impl NewCommand {
    /// What the package manager is told to take in place of the bundler's
    /// native core.
    fn rollup_override() -> (r: Json)
        ensures
            r@ == rollup_override(),
    {
        let mut rollup = no_members();
        put_text(&mut rollup, "rollup", "npm:@rollup/wasm-node");
        object_of("overrides", object(rollup))
    }

    /// The manifest of a new workspace.
    pub fn workspace_manifest() -> (r: Json)
        ensures
            r@ == workspace_manifest(),
    {
        let mut version = no_members();
        put_text(&mut version, "depot-version", DEPOT_VERSION);
        let mut members = no_members();
        put_flag(&mut members, "private", true);
        put(&mut members, "depot", object(version));
        put(&mut members, "pnpm", Self::rollup_override());
        object(members)
    }

    /// The manifest of the new package.
    pub fn package_manifest(&self) -> (r: Json)
        ensures
            r@ == package_manifest(self.args, self.inside_workspace()),
    {
        let name = self.args.name.to_string();
        let mut members = no_members();
        put_text(&mut members, "name", name.as_str());
        put_text(&mut members, "version", "0.1.0");
        put_text(&mut members, "type", "module");
        match self.args.target {
            Target::Script => {
                if self.args.platform.is_node() {
                    let mut program = String::from_str("dist/");
                    program.append(name.as_str());
                    program.append(".cjs");
                    let mut bin = no_members();
                    put_text(&mut bin, self.args.name.name.as_str(), program.as_str());
                    put(&mut members, "bin", object(bin));
                }
            },
            Target::Lib => {
                let mut main = no_members();
                put_text(&mut main, "default", "./dist/lib.js");
                let mut rest = no_members();
                put_text(&mut rest, "default", "./dist/*.js");
                let mut exports = no_members();
                put(&mut exports, ".", object(main));
                put(&mut exports, "./*", object(rest));
                put_text(&mut members, "main", "dist/lib.js");
                put(&mut members, "files", text_list("dist"));
                put(&mut members, "exports", object(exports));
            },
            Target::Site => {},
        }
        let mut settings = no_members();
        put_text(&mut settings, "platform", self.args.platform.to_esbuild_string());
        put_text(&mut settings, "target", self.args.target.name());
        put_text(&mut settings, "depot-version", DEPOT_VERSION);
        put(&mut members, "depot", object(settings));
        if self.ws_root.is_none() {
            put(&mut members, "pnpm", Self::rollup_override());
        }
        object(members)
    }

    /// What every project needs to be built, tested, checked, formatted and
    /// documented.
    pub fn ws_dependencies() -> (r: Vec<String>)
        ensures
            texts(r@) == ws_dependencies(),
    {
        let mut deps = no_texts();
        push_text(&mut deps, "vite");
        push_text(&mut deps, "vitest");
        push_text(&mut deps, "typescript");
        push_text(&mut deps, "@types/node");
        push_text(&mut deps, "@biomejs/biome");
        push_text(&mut deps, "typedoc");
        deps
    }

    /// What the new package needs while it is developed.
    pub fn dev_dependencies(&self) -> (r: Vec<String>)
        ensures
            texts(r@) == dev_dependencies(self.args),
    {
        let mut deps = no_texts();
        if self.args.platform.is_browser() {
            push_text(&mut deps, "jsdom");
        }
        if self.args.react {
            push_text(&mut deps, "react");
            push_text(&mut deps, "react-dom");
            push_text(&mut deps, "@types/react");
            push_text(&mut deps, "@types/react-dom");
            push_text(&mut deps, "@vitejs/plugin-react");
            push_text(&mut deps, "@testing-library/react");
        }
        if self.args.vike {
            push_text(&mut deps, "vike");
            if self.args.react {
                push_text(&mut deps, "vike-react");
            }
        }
        if self.args.sass {
            push_text(&mut deps, "sass");
        }
        match self.args.target {
            Target::Site => {
                push_text(&mut deps, "normalize.css");
            },
            Target::Script => {
                if self.args.platform.is_node() {
                    push_text(&mut deps, "vite");
                }
            },
            Target::Lib => {},
        }
        deps
    }

    /// What the new package needs from whoever uses it.
    pub fn peer_dependencies(&self) -> (r: Vec<String>)
        ensures
            texts(r@) == peer_dependencies(self.args),
    {
        let mut deps = no_texts();
        if self.args.target.is_lib() && self.args.react {
            push_text(&mut deps, "react");
        }
        deps
    }

    /// The arguments with which the package manager adds `deps`.
    pub fn run_pnpm(&self, flag: &str, deps: &Vec<String>, to_workspace_root: bool) -> (r: Vec<String>)
        ensures
            texts(r@) == add_args(self.args, flag@, texts(deps@), to_workspace_root),
    {
        let mut out = no_texts();
        push_text(&mut out, "add");
        push_text(&mut out, flag);
        push_texts(&mut out, deps);
        if to_workspace_root {
            push_text(&mut out, "--workspace-root");
        }
        if self.args.offline {
            push_text(&mut out, "--offline");
        }
        if self.args.prefer_offline {
            push_text(&mut out, "--prefer-offline");
        }
        out
    }

    /// The run of the package manager that adds what every project needs.
    pub fn install_ws_dependencies(&self, is_workspace: bool, in_workspace: bool) -> (r: Install)
        ensures
            r@ == (InstallView {
                args: add_args(self.args, "--save-dev"@, ws_dependencies(), is_workspace),
                in_workspace,
            }),
    {
        let deps = Self::ws_dependencies();
        Install { args: self.run_pnpm("--save-dev", &deps, is_workspace), in_workspace }
    }

    /// The file of the bundler's settings, and what goes with it.
    pub fn make_vite_config(&self, entry_point: Option<&str>) -> (r: Option<Vec<NewFile>>)
        requires
            self.args.target is Script ==> entry_point is Some,
            self.args.target is Script && self.args.platform is Browser ==> parts_nonempty(self.args.name@.name),
        ensures
            match vite_text(
                self.args,
                match entry_point {
                    Some(e) => e@,
                    None => Seq::empty(),
                },
            ) {
                Some(text) => r is Some && files_view(r->0@) == vite_files(self.args, text),
                None => r is None,
            },
    {
        match make_vite_text(&self.args, entry_point) {
            Some(text) => {
                let mut files = no_files();
                if self.args.react {
                    add_text(&mut files, "tests/setup.ts", VITEST_SETUP);
                }
                add_text(
                    &mut files,
                    if self.args.target.is_lib() {
                        "vitest.config.ts"
                    } else {
                        "vite.config.ts"
                    },
                    text.as_str(),
                );
                Some(files)
            },
            None => None,
        }
    }

    /// The documentation settings `config` of the workspace around the new
    /// package, with the package as one more entry point.
    pub fn update_typedoc_config(&self, config: Json) -> (r: Option<Json>)
        ensures
            value_view(r) == with_entry_point(config@, self.args.name@.name),
    {
        match config {
            Json::Object(members) => {
                let mut members = members;
                let key = String::from_str("entryPoints");
                match find_member(&members, &key) {
                    Some(i) => {
                        let ghost before = members@;
                        let (name, value) = members.remove(i);
                        match value {
                            Json::Array(items) => {
                                let mut items = items;
                                let entry = text_of("packages/", self.args.name.name.as_str());
                                let ghost held = items@;
                                items.push(Json::Text(entry));
                                members.insert(i, (name, Json::Array(items)));
                                proof {
                                    assert(items_view(items@) =~= items_view(held).push(JsonView::Text(entry@)));
                                    assert(members@ =~= before.update(i as int, (name, Json::Array(items))));
                                    assert(members_view(members@) =~= members_view(before).update(
                                        i as int,
                                        ("entryPoints"@, JsonView::Array(items_view(items@))),
                                    ));
                                }
                                Some(Json::Object(members))
                            },
                            _ => None,
                        }
                    },
                    None => None,
                }
            },
            _ => None,
        }
    }

    /// What is done to make a new workspace at `root`.
    pub fn new_workspace(&self, root: String) -> (plan: NewPlan)
        ensures
            plan@ == workspace_plan(self.args, self.inside_workspace(), root@),
    {
        let mut dirs = no_texts();
        push_text(&mut dirs, "packages");
        let mut files = no_files();
        add_document(&mut files, "package.json", Self::workspace_manifest());
        add_text(&mut files, "pnpm-workspace.yaml", PNPM_WORKSPACE);
        add_files(&mut files, self.make_tsconfig());
        add_files(&mut files, self.make_biome_config());
        add_files(&mut files, self.make_typedoc_config());
        add_files(&mut files, Self::make_gitignore());
        let mut installs = no_installs();
        add_install(&mut installs, self.install_ws_dependencies(true, false));
        NewPlan { root, dirs, adds_entry_point: false, files, installs }
    }

    /// The sources of the new package.
    fn source_files(&self) -> (files: Vec<NewFile>)
        ensures
            files_view(files@) == source_files(self.args, self.inside_workspace()),
    {
        let mut files = no_files();
        match self.args.target {
            Target::Site => {
                let css = css_path(self.args.vike, self.args.sass);
                if self.args.vike {
                    add_text(&mut files, "src/+config.ts", VIKE_CONFIG);
                    let head = make_vike_head(css.as_str());
                    add_text(&mut files, "src/+Head.tsx", head.as_str());
                    let style = text_of("src/", css.as_str());
                    add_text(&mut files, style.as_str(), CSS);
                    add_text(&mut files, "src/index/+Page.tsx", VIKE_PAGE);
                    add_text(&mut files, "src/index/+title.tsx", VIKE_TITLE);
                } else {
                    let style = text_of("styles/", css.as_str());
                    if self.args.react {
                        let page = make_index_html("index.tsx", css.as_str());
                        add_text(&mut files, "index.html", page.as_str());
                        add_text(&mut files, style.as_str(), CSS);
                        add_text(&mut files, "src/index.tsx", REACT_INDEX);
                    } else {
                        let page = make_index_html("index.ts", css.as_str());
                        add_text(&mut files, "index.html", page.as_str());
                        add_text(&mut files, style.as_str(), CSS);
                        add_text(&mut files, "src/index.ts", BASIC_INDEX);
                    }
                }
            },
            Target::Script => {
                add_text(
                    &mut files,
                    if self.args.react {
                        "src/main.tsx"
                    } else {
                        "src/main.ts"
                    },
                    MAIN,
                );
            },
            Target::Lib => {
                add_text(&mut files, "tests/add.test.ts", TEST);
                if self.ws_root.is_none() {
                    add_files(&mut files, self.make_typedoc_config());
                }
                add_text(
                    &mut files,
                    if self.args.react {
                        "src/lib.tsx"
                    } else {
                        "src/lib.ts"
                    },
                    LIB,
                );
            },
        }
        files
    }

    /// The name of the entry point of the new package, if it has one file
    /// as its entry point.
    pub fn entry_point(&self) -> (r: Option<&'static str>)
        ensures
            match r {
                Some(e) => entry_point(self.args) == Some(e@),
                None => entry_point(self.args) is None,
            },
    {
        match self.args.target {
            Target::Site => None,
            Target::Script => Some(
                if self.args.react {
                    "main.tsx"
                } else {
                    "main.ts"
                },
            ),
            Target::Lib => Some(
                if self.args.react {
                    "lib.tsx"
                } else {
                    "lib.ts"
                },
            ),
        }
    }

    /// The runs of the package manager for the new package.
    fn package_installs(&self) -> (installs: Vec<Install>)
        ensures
            installs_view(installs@) == package_installs(self.args, self.inside_workspace()),
    {
        let mut installs = no_installs();
        let peer = self.peer_dependencies();
        if peer.len() > 0 {
            add_install(&mut installs, Install { args: self.run_pnpm("--save-peer", &peer, false), in_workspace: false });
        }
        let dev = self.dev_dependencies();
        if dev.len() > 0 {
            add_install(&mut installs, Install { args: self.run_pnpm("--save-dev", &dev, false), in_workspace: false });
        }
        let inside = self.ws_root.is_some();
        add_install(&mut installs, self.install_ws_dependencies(inside, inside));
        installs
    }

    /// What is done to make a new package at `root`, unless the arguments
    /// stand in the way.
    pub fn new_package(&self, root: String) -> (r: Result<NewPlan, NewError>)
        requires
            !self.args.workspace,
            needs_global_name(self.args) ==> parts_nonempty(self.args.name@.name),
        ensures
            outcome_view(r) == package_outcome(self.args, self.inside_workspace(), root@),
    {
        if self.args.vike && !self.args.target.is_site() {
            return Err(NewError::VikeNeedsSite);
        }
        if self.args.target.is_site() && !self.args.platform.is_browser() {
            return Err(NewError::SiteNeedsBrowser);
        }
        if self.args.target.is_site() && self.args.vike && !self.args.react {
            return Err(NewError::VikeWithoutReact);
        }
        let mut dirs = no_texts();
        push_text(&mut dirs, "src");
        push_text(&mut dirs, "tests");
        if self.args.target.is_site() && !self.args.vike {
            push_text(&mut dirs, "styles");
        }
        let mut files = self.source_files();
        add_document(&mut files, "package.json", self.package_manifest());
        add_files(&mut files, self.make_tsconfig());
        add_files(&mut files, self.make_biome_config());
        match self.make_vite_config(self.entry_point()) {
            Some(vite) => {
                add_files(&mut files, vite);
            },
            None => {
                return Err(NewError::TooLong);
            },
        }
        if self.ws_root.is_none() {
            add_files(&mut files, Self::make_gitignore());
        }
        let adds_entry_point = self.args.target.is_lib() && self.ws_root.is_some();
        Ok(NewPlan { root, dirs, adds_entry_point, files, installs: self.package_installs() })
    }

    /// What is done when the command is run in the directory `cwd`, unless
    /// the arguments stand in the way.
    pub fn run(&self, cwd: &str) -> (r: Result<NewPlan, NewError>)
        requires
            needs_global_name(self.args) ==> parts_nonempty(self.args.name@.name),
        ensures
            outcome_view(r) == new_outcome(
                self.args,
                match self.ws_root {
                    Some(ws) => Some(ws@),
                    None => None,
                },
                cwd@,
            ),
    {
        if self.ws_root.is_some() && self.args.workspace {
            return Err(NewError::WorkspaceInsideWorkspace);
        }
        let root = match &self.ws_root {
            Some(ws) => self.args.root(Some(ws.as_str()), cwd),
            None => self.args.root(None, cwd),
        };
        if self.args.workspace {
            Ok(self.new_workspace(root))
        } else {
            self.new_package(root)
        }
    }
}

} // verus!
