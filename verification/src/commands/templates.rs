//! The texts of the files of a new project.

use crate::commands::new::NewArgs;
use crate::commands::shell::push_text;
use crate::workspace::package::{global_var, parts_nonempty, texts, Platform, Target};
use vstd::prelude::*;
use vstd::string::{StringExecFns, StringSliceAdditionalSpecFns};
use vstd::utf8::encode_utf8;

verus! {

/// The entry point of a site that uses React.
pub const REACT_INDEX: &'static str =
    "import React from \"react\";\nimport ReactDOM from \"react-dom/client\";\n\nlet App = () => {\n  return <h1>Hello world!</h1>;\n};\n\nReactDOM.createRoot(document.getElementById(\"root\")!).render(<App />);\n";

/// The entry point of a site without React.
pub const BASIC_INDEX: &'static str =
    "let root = document.getElementById(\"root\")!;\nroot.innerHTML = \"<h1>Hello world!</h1>\";\n";

/// The entry point of a script.
pub const MAIN: &'static str = "console.log(\"Hello world!\");\n";

/// The entry point of a library.
pub const LIB: &'static str =
    "/** Adds two numbers together */\nexport function add(a: number, b: number) {\n  return a + b;\n}\n";

/// The test of a library.
pub const TEST: &'static str =
    "import { expect, test } from \"vitest\";\n\nimport { add } from \"../src/lib\";\n\ntest(\"add\", () => expect(add(2, 2)).toBe(4));\n";

/// The style sheet of a site.
pub const CSS: &'static str = "@import \"normalize.css/normalize.css\";\n";

/// Where the package manager finds the packages of a workspace.
pub const PNPM_WORKSPACE: &'static str = "packages:\n  - \"packages/*\"\n";

/// What is run before the tests of a package that uses React.
pub const VITEST_SETUP: &'static str =
    "import { cleanup } from \"@testing-library/react\";\nimport { afterEach } from \"vitest\";\n\nafterEach(() => {\n  cleanup();\n});\n";

/// The settings of a site that uses Vike.
pub const VIKE_CONFIG: &'static str =
    "import vikeReact from \"vike-react/config\";\nimport type { Config } from \"vike/types\";\n\nexport let config: Config = {\n  extends: vikeReact,\n  lang: \"en-US\"\n};\n";

/// The first page of a site that uses Vike.
pub const VIKE_PAGE: &'static str =
    "import React from \"react\";\n\nexport default () => {\n  return <h1>Hello, world!</h1>;\n};\n";

/// The title of a site that uses Vike.
pub const VIKE_TITLE: &'static str = "export let title = \"Example Site\";\n";

/// The page of a site as far as its style sheet's name.
pub const HTML_START: &'static str =
    "<!DOCTYPE html>\n<html lang=\"en\">\n  <head>\n    <meta charset=\"UTF-8\" />\n    <meta name=\"viewport\" content=\"width=device-width, initial-scale=1.0\" />\n    <link href=\"/styles/";

/// The page of a site between the names of its style sheet and its entry point.
pub const HTML_MIDDLE: &'static str =
    "\" rel=\"stylesheet\" type=\"text/css\" />\n  </head>\n  <body>\n    <div id=\"root\"></div>\n    <script type=\"module\" src=\"/src/";

/// The page of a site after the name of its entry point.
pub const HTML_END: &'static str = "\"></script>\n  </body>\n</html>";

/// The head of a site that uses Vike as far as its style sheet's name.
pub const HEAD_START: &'static str = "import React from \"react\";\nimport \"./";

/// The head of a site that uses Vike after its style sheet's name.
pub const HEAD_END: &'static str =
    "\";\n\nexport let Head = () => (\n  <>\n    <meta name=\"viewport\" content=\"width=device-width, initial-scale=1\" />\n  </>\n);\n";

/// The page of a site with the given entry point and style sheet.
pub open spec fn index_html(js_entry_point: Seq<char>, css_entry_point: Seq<char>) -> Seq<char> {
    HTML_START@ + css_entry_point + HTML_MIDDLE@ + js_entry_point + HTML_END@
}

/// The page of a site with the given entry point and style sheet.
pub fn make_index_html(js_entry_point: &str, css_entry_point: &str) -> (r: String)
    ensures
        r@ == index_html(js_entry_point@, css_entry_point@),
{
    let mut out = String::from_str(HTML_START);
    out.append(css_entry_point);
    out.append(HTML_MIDDLE);
    out.append(js_entry_point);
    out.append(HTML_END);
    out
}

/// The head of a site that uses Vike, with the given style sheet.
pub open spec fn vike_head(css_path: Seq<char>) -> Seq<char> {
    HEAD_START@ + css_path + HEAD_END@
}

/// The head of a site that uses Vike, with the given style sheet.
pub fn make_vike_head(css_path: &str) -> (r: String)
    ensures
        r@ == vike_head(css_path@),
{
    let mut out = String::from_str(HEAD_START);
    out.append(css_path);
    out.append(HEAD_END);
    out
}

/// The name of the style sheet of a site: `base` with Vike and `index`
/// without, as Sass or as plain CSS.
pub open spec fn css_file(vike: bool, sass: bool) -> Seq<char> {
    (if vike {
        "base"@
    } else {
        "index"@
    }) + (if sass {
        ".scss"@
    } else {
        ".css"@
    })
}

/// The name of the style sheet of a site.
pub fn css_path(vike: bool, sass: bool) -> (r: String)
    ensures
        r@ == css_file(vike, sass),
{
    let mut out = String::from_str(
        if vike {
            "base"
        } else {
            "index"
        },
    );
    out.append(
        if sass {
            ".scss"
        } else {
            ".css"
        },
    );
    out
}

/// `text` with `prefix` before each of its lines.
pub uninterp spec fn indented(text: Seq<char>, prefix: Seq<char>) -> Seq<char>;

/// The text can be indented by the prefix on this machine: a string has room
/// for twice the bytes that the result can come to, which are those of the
/// text and, for each of its lines, those of the prefix. A text has at most
/// one line more than it has bytes.
pub open spec fn can_indent(text: Seq<char>, prefix: Seq<char>) -> bool {
    2 * (encode_utf8(text).len() + (encode_utf8(text).len() + 1) * encode_utf8(prefix).len()) <= isize::MAX
}

/// `textwrap::indent`: the result is a function of the text and the prefix
/// alone. The call asks for twice the bytes of the text at once and then
/// adds the prefix once for each line, and a string panics where it is to
/// hold more than `isize::MAX` bytes; `requires` leaves out what can come
/// to that.
#[verifier::external_body]
pub(crate) fn indent(text: &str, prefix: &str) -> (r: String)
    requires
        can_indent(text@, prefix@),
    ensures
        r@ == indented(text@, prefix@),
{
    textwrap::indent(text, prefix)
}

/// `text` with `prefix` before each of its lines, if the machine's strings
/// have room for that.
pub open spec fn indented_within(text: Seq<char>, prefix: Seq<char>) -> Option<Seq<char>> {
    if can_indent(text, prefix) {
        Some(indented(text, prefix))
    } else {
        None
    }
}

/// The characters of a text that may be missing.
pub open spec fn shown(text: Option<String>) -> Option<Seq<char>> {
    match text {
        Some(s) => Some(s@),
        None => None,
    }
}

/// Whether the text can be indented by the prefix on this machine.
pub fn fits(text: &str, prefix: &str) -> (r: bool)
    ensures
        r == can_indent(text@, prefix@),
{
    let t = text.as_bytes().len();
    let p = prefix.as_bytes().len();
    let most = isize::MAX as usize;
    proof {
        assert(t == encode_utf8(text@).len());
        assert(p == encode_utf8(prefix@).len());
        assert(most == isize::MAX);
    }
    if t > most / 2 || p > most {
        proof {
            assert(t > most / 2 ==> 2 * (t + (t + 1) * p) > isize::MAX) by (nonlinear_arith)
                requires
                    most == isize::MAX,
                    t >= 0,
                    p >= 0,
            ;
            assert(p > most ==> 2 * (t + (t + 1) * p) > isize::MAX) by (nonlinear_arith)
                requires
                    most == isize::MAX,
                    t >= 0,
                    p >= 0,
            ;
        }
        return false;
    }
    let wide_t: u128 = t as u128;
    let wide_p: u128 = p as u128;
    proof {
        assert((wide_t + 1) * wide_p <= 0x8000_0000_0000_0000 * 0x8000_0000_0000_0000) by (nonlinear_arith)
            requires
                wide_t < 0x8000_0000_0000_0000,
                wide_p < 0x8000_0000_0000_0000,
        ;
    }
    2 * (wide_t + (wide_t + 1) * wide_p) <= most as u128
}

/// `text` with `prefix` before each of its lines, if the machine's strings
/// have room for that.
pub fn indent_within(text: &str, prefix: &str) -> (r: Option<String>)
    ensures
        shown(r) == indented_within(text@, prefix@),
{
    if fits(text, prefix) {
        Some(indent(text, prefix))
    } else {
        None
    }
}

/// Each text of `parts` with `prefix` before each of its lines, if all of
/// them can be indented.
pub open spec fn indented_all(parts: Seq<Seq<char>>, prefix: Seq<char>) -> Option<Seq<Seq<char>>>
    decreases parts.len(),
{
    if parts.len() == 0 {
        Some(Seq::empty())
    } else {
        match (indented_all(parts.drop_last(), prefix), indented_within(parts.last(), prefix)) {
            (Some(init), Some(last)) => Some(init.push(last)),
            _ => None,
        }
    }
}

/// The texts of `parts` with `separator` between them.
pub open spec fn joined_by(parts: Seq<Seq<char>>, separator: Seq<char>) -> Seq<char>
    decreases parts.len(),
{
    if parts.len() == 0 {
        Seq::empty()
    } else if parts.len() == 1 {
        parts[0]
    } else {
        joined_by(parts.drop_last(), separator) + separator + parts.last()
    }
}

/// Each text of `parts` with `prefix` before each of its lines, if all of
/// them can be indented.
pub fn indent_all(parts: &Vec<String>, prefix: &str) -> (r: Option<Vec<String>>)
    ensures
        match indented_all(texts(parts@), prefix@) {
            Some(lines) => r is Some && texts(r->0@) == lines,
            None => r is None,
        },
{
    let mut out: Vec<String> = Vec::new();
    let mut i: usize = 0;
    proof {
        assert(texts(parts@).take(0) =~= Seq::<Seq<char>>::empty());
        assert(texts(out@) =~= Seq::<Seq<char>>::empty());
    }
    while i < parts.len()
        invariant
            i <= parts@.len(),
            indented_all(texts(parts@).take(i as int), prefix@) == Some(texts(out@)),
        decreases parts@.len() - i,
    {
        proof {
            let upto = texts(parts@).take(i + 1);
            assert(upto.drop_last() =~= texts(parts@).take(i as int));
            assert(upto.last() == parts@[i as int]@);
        }
        match indent_within(parts[i].as_str(), prefix) {
            Some(line) => {
                proof {
                    assert(texts(out@.push(line)) =~= texts(out@).push(line@));
                }
                out.push(line);
            },
            None => {
                proof {
                    lemma_indented_all_fails(texts(parts@), i as int + 1, prefix@);
                }
                return None;
            },
        }
        i += 1;
    }
    proof {
        assert(texts(parts@).take(parts@.len() as int) =~= texts(parts@));
    }
    Some(out)
}

/// The texts of `parts` with `separator` between them.
pub fn join_with(parts: &Vec<String>, separator: &str) -> (r: String)
    ensures
        r@ == joined_by(texts(parts@), separator@),
{
    let mut out = String::new();
    let mut i: usize = 0;
    proof {
        assert(texts(parts@).take(0) =~= Seq::<Seq<char>>::empty());
    }
    while i < parts.len()
        invariant
            i <= parts@.len(),
            out@ == joined_by(texts(parts@).take(i as int), separator@),
        decreases parts@.len() - i,
    {
        proof {
            let upto = texts(parts@).take(i + 1);
            assert(upto.drop_last() =~= texts(parts@).take(i as int));
            assert(upto.last() == parts@[i as int]@);
            if i == 0 {
                assert(upto[0] == parts@[0]@);
                assert(Seq::<char>::empty() + parts@[0]@ =~= parts@[0]@);
            }
        }
        if i > 0 {
            out.append(separator);
        }
        out.append(parts[i].as_str());
        i += 1;
    }
    proof {
        assert(texts(parts@).take(parts@.len() as int) =~= texts(parts@));
    }
    out
}

/// Each text of `parts` indented by `prefix`, with `separator` between them.
pub fn indent_and_join(parts: &Vec<String>, prefix: &str, separator: &str) -> (r: Option<String>)
    ensures
        shown(r) == match indented_all(texts(parts@), prefix@) {
            Some(lines) => Some(joined_by(lines, separator@)),
            None => None,
        },
{
    match indent_all(parts, prefix) {
        Some(lines) => Some(join_with(&lines, separator)),
        None => None,
    }
}

/// Texts of which the first `n` cannot all be indented cannot all be indented.
proof fn lemma_indented_all_fails(parts: Seq<Seq<char>>, n: int, prefix: Seq<char>)
    requires
        0 <= n <= parts.len(),
        indented_all(parts.take(n), prefix) is None,
    ensures
        indented_all(parts, prefix) is None,
    decreases parts.len() - n,
{
    if n < parts.len() {
        assert(parts.take(n + 1).drop_last() =~= parts.take(n));
        lemma_indented_all_fails(parts, n + 1, prefix);
    } else {
        assert(parts.take(n) =~= parts);
    }
}

/// The import of the file system.
pub const IMPORT_FS: &'static str = "import fs from \"node:fs\";\n";

/// The import of the names of the modules that Node brings.
pub const IMPORT_BUILTINS: &'static str = "import { builtinModules } from \"node:module\";\n";

/// The import of the function that resolves paths.
pub const IMPORT_RESOLVE: &'static str = "import { resolve } from \"node:path\";\n";

/// The import of the bundler's plugin for React.
pub const IMPORT_REACT: &'static str = "import react from \"@vitejs/plugin-react\";\n";

/// The import of the bundler's plugin for Vike.
pub const IMPORT_VIKE: &'static str = "import vike from \"vike/plugin\";\n";

/// The import of the function that takes the bundler's settings.
pub const IMPORT_DEFINE: &'static str = "import { defineConfig } from \"vite\";\n";

/// What follows the imports in the bundler's settings.
pub const SETTINGS_START: &'static str =
    "\nlet manifest = JSON.parse(fs.readFileSync(\"package.json\", \"utf-8\"));\nexport default defineConfig(({ mode }) => ({\n";

/// The end of the bundler's settings.
pub const SETTINGS_END: &'static str = "\n}));\n";

/// The line that makes the types of the test runner known.
pub const VITEST_TYPES: &'static str = "/// <reference types=\"vitest\" />\n";

/// The setting that hands the mode to what is bundled.
pub const DEFINE_ENTRY: &'static str = "define: {\n  \"process.env.NODE_ENV\": JSON.stringify(mode)\n}";

/// The end of the settings of the test runner.
pub const TEST_END: &'static str = "\n  deps: {\n    inline: [/^(?!.*vitest).*$/]\n  }\n}";

/// The imports of the bundler's settings, in the order of the names of the
/// packages they are taken from: a script resolves its entry point, one for
/// Node leaves out the modules that Node brings, and React and Vike bring
/// their plugins.
pub open spec fn import_lines(args: NewArgs) -> Seq<char> {
    let fs = IMPORT_FS@;
    let builtins = if args.target is Script && args.platform is Node {
        fs + IMPORT_BUILTINS@
    } else {
        fs
    };
    let resolve = if args.target is Script {
        builtins + IMPORT_RESOLVE@
    } else {
        builtins
    };
    let react = if args.react {
        resolve + IMPORT_REACT@
    } else {
        resolve
    };
    let vike = if args.vike {
        react + IMPORT_VIKE@
    } else {
        react
    };
    vike + IMPORT_DEFINE@
}

/// How a script with the entry point `entry` is bundled: for the browser as
/// one expression under the name of the package, for Node as a module that
/// is not minified.
pub open spec fn build_settings(args: NewArgs, entry: Seq<char>) -> Seq<char> {
    if args.platform is Browser {
        "lib: {\n  entry: resolve(__dirname, \"src/"@ + entry + "\"),\n  name: \""@ + global_var(args.name@.name)
            + "\",\n  formats: [\"iife\"]\n},"@
    } else {
        "lib: {\n  entry: resolve(__dirname, \"src/"@ + entry + "\"),\n  formats: [\"cjs\"]\n},\nminify: false,"@
    }
}

/// What is left out of the bundle of a script: its dependencies, and for
/// Node the modules that Node brings.
pub open spec fn rollup_settings(args: NewArgs) -> Seq<char> {
    let start = "rollupOptions: {\n  external: Object.keys(manifest.dependencies || {})"@;
    let external = if args.platform is Node {
        start + ".concat(builtinModules)"@
    } else {
        start
    };
    external + "\n}"@
}

/// The setting under which a script is built, where `build` says how and
/// `rollup` what is left out.
pub open spec fn build_around(build: Seq<char>, rollup: Seq<char>) -> Seq<char> {
    "build: {\n"@ + build + "\n"@ + rollup + "\n}"@
}

/// The setting under which a script is built, if its parts can be indented.
pub open spec fn build_entry(args: NewArgs, entry: Seq<char>) -> Option<Seq<char>> {
    match (indented_within(build_settings(args, entry), "  "@), indented_within(rollup_settings(args), "  "@)) {
        (Some(build), Some(rollup)) => Some(build_around(build, rollup)),
        _ => None,
    }
}

/// The settings of the test runner: where the tests run, and what is run
/// before them in a package that uses React.
pub open spec fn test_entry(args: NewArgs) -> Seq<char> {
    let start = "test: {\n  environment: \""@ + (if args.platform is Browser {
        "jsdom"@
    } else {
        "node"@
    }) + "\","@;
    let setup = if args.react {
        start + "\n  setupFiles: \"tests/setup.ts\","@
    } else {
        start
    };
    setup + TEST_END@
}

/// The settings of the bundler, one text each: the base of a site without
/// Vike, or how a script is built, which is `build`; the mode; the plugins,
/// if there are any; the test runner; and for Node how imports are resolved.
pub open spec fn config_entries(args: NewArgs, build: Seq<char>) -> Seq<Seq<char>> {
    let first: Seq<Seq<char>> = if args.target is Site && !args.vike {
        Seq::empty().push("base: \"./\""@)
    } else if args.target is Script {
        Seq::empty().push(build)
    } else {
        Seq::empty()
    };
    let define = first.push(DEFINE_ENTRY@);
    let plugins = if args.react && args.vike {
        define.push("plugins: [react(), vike({ prerender: true })]"@)
    } else if args.react {
        define.push("plugins: [react()]"@)
    } else if args.vike {
        define.push("plugins: [vike({ prerender: true })]"@)
    } else {
        define
    };
    let test = plugins.push(test_entry(args));
    if args.platform is Node {
        test.push("resolve: { conditions: [\"node\"] }"@)
    } else {
        test
    }
}

/// The file of the bundler's settings around the settings `body`: that of a
/// library starts with the types of the test runner.
pub open spec fn settings_around(args: NewArgs, body: Seq<char>) -> Seq<char> {
    let text = import_lines(args) + SETTINGS_START@ + body + SETTINGS_END@;
    if args.target is Lib {
        VITEST_TYPES@ + text
    } else {
        text
    }
}

/// The text of the bundler's settings for a package whose entry point is
/// `entry`, if all that is indented in it can be.
pub open spec fn vite_text(args: NewArgs, entry: Seq<char>) -> Option<Seq<char>> {
    let build = if args.target is Script {
        build_entry(args, entry)
    } else {
        Some(Seq::empty())
    };
    match build {
        Some(b) => match indented_all(config_entries(args, b), "  "@) {
            Some(lines) => Some(settings_around(args, joined_by(lines, ",\n"@))),
            None => None,
        },
        None => None,
    }
}

/// The imports of the bundler's settings.
pub fn make_import_lines(args: &NewArgs) -> (r: String)
    ensures
        r@ == import_lines(*args),
{
    let mut out = String::from_str(IMPORT_FS);
    if args.target.is_script() && args.platform.is_node() {
        out.append(IMPORT_BUILTINS);
    }
    if args.target.is_script() {
        out.append(IMPORT_RESOLVE);
    }
    if args.react {
        out.append(IMPORT_REACT);
    }
    if args.vike {
        out.append(IMPORT_VIKE);
    }
    out.append(IMPORT_DEFINE);
    out
}

/// How a script with the entry point `entry` is bundled.
pub fn make_build_settings(args: &NewArgs, entry: &str) -> (r: String)
    requires
        args.platform is Browser ==> parts_nonempty(args.name@.name),
    ensures
        r@ == build_settings(*args, entry@),
{
    let mut build = String::from_str("lib: {\n  entry: resolve(__dirname, \"src/");
    build.append(entry);
    if args.platform.is_browser() {
        build.append("\"),\n  name: \"");
        let name = args.name.as_global_var();
        build.append(name.as_str());
        build.append("\",\n  formats: [\"iife\"]\n},");
    } else {
        build.append("\"),\n  formats: [\"cjs\"]\n},\nminify: false,");
    }
    build
}

/// What is left out of the bundle of a script.
pub fn make_rollup_settings(args: &NewArgs) -> (r: String)
    ensures
        r@ == rollup_settings(*args),
{
    let mut rollup = String::from_str("rollupOptions: {\n  external: Object.keys(manifest.dependencies || {})");
    if args.platform.is_node() {
        rollup.append(".concat(builtinModules)");
    }
    rollup.append("\n}");
    rollup
}

/// The setting under which a script is built, where `build` says how and
/// `rollup` what is left out.
pub fn make_build_around(build: &str, rollup: &str) -> (r: String)
    ensures
        r@ == build_around(build@, rollup@),
{
    let mut out = String::from_str("build: {\n");
    out.append(build);
    out.append("\n");
    out.append(rollup);
    out.append("\n}");
    out
}

/// The file of the bundler's settings around the settings `body`.
pub fn make_settings_around(args: &NewArgs, body: &str) -> (r: String)
    ensures
        r@ == settings_around(*args, body@),
{
    let mut text = make_import_lines(args);
    text.append(SETTINGS_START);
    text.append(body);
    text.append(SETTINGS_END);
    if args.target.is_lib() {
        let mut out = String::from_str(VITEST_TYPES);
        out.append(text.as_str());
        out
    } else {
        text
    }
}

/// The setting under which a script with the entry point `entry` is built.
pub fn make_build_entry(args: &NewArgs, entry: &str) -> (r: Option<String>)
    requires
        args.platform is Browser ==> parts_nonempty(args.name@.name),
    ensures
        shown(r) == build_entry(*args, entry@),
{
    let build = make_build_settings(args, entry);
    let rollup = make_rollup_settings(args);
    match indent_within(build.as_str(), "  ") {
        Some(b) => match indent_within(rollup.as_str(), "  ") {
            Some(r) => Some(make_build_around(b.as_str(), r.as_str())),
            None => None,
        },
        None => None,
    }
}

/// The settings of the test runner.
pub fn make_test_entry(args: &NewArgs) -> (r: String)
    ensures
        r@ == test_entry(*args),
{
    let mut out = String::from_str("test: {\n  environment: \"");
    out.append(
        if args.platform.is_browser() {
            "jsdom"
        } else {
            "node"
        },
    );
    out.append("\",");
    if args.react {
        out.append("\n  setupFiles: \"tests/setup.ts\",");
    }
    out.append(TEST_END);
    out
}

/// The settings of the bundler, one text each, where `build` says how a
/// script is built.
pub fn make_config_entries(args: &NewArgs, build: &str) -> (r: Vec<String>)
    ensures
        texts(r@) == config_entries(*args, build@),
{
    let mut out: Vec<String> = Vec::new();
    assert(texts(out@) =~= Seq::<Seq<char>>::empty());
    if args.target.is_site() && !args.vike {
        push_text(&mut out, "base: \"./\"");
    } else if args.target.is_script() {
        push_text(&mut out, build);
    }
    push_text(&mut out, DEFINE_ENTRY);
    if args.react && args.vike {
        push_text(&mut out, "plugins: [react(), vike({ prerender: true })]");
    } else if args.react {
        push_text(&mut out, "plugins: [react()]");
    } else if args.vike {
        push_text(&mut out, "plugins: [vike({ prerender: true })]");
    }
    let test = make_test_entry(args);
    push_text(&mut out, test.as_str());
    if args.platform.is_node() {
        push_text(&mut out, "resolve: { conditions: [\"node\"] }");
    }
    out
}

/// The text of the bundler's settings for a package whose entry point is
/// `entry_point`; a script has one.
pub fn make_vite_text(args: &NewArgs, entry_point: Option<&str>) -> (r: Option<String>)
    requires
        args.target is Script ==> entry_point is Some,
        args.target is Script && args.platform is Browser ==> parts_nonempty(args.name@.name),
    ensures
        shown(r) == vite_text(
            *args,
            match entry_point {
                Some(e) => e@,
                None => Seq::empty(),
            },
        ),
{
    let build = if args.target.is_script() {
        match entry_point {
            Some(entry) => make_build_entry(args, entry),
            None => None,
        }
    } else {
        Some(String::new())
    };
    match build {
        Some(b) => {
            let entries = make_config_entries(args, b.as_str());
            match indent_and_join(&entries, "  ", ",\n") {
                Some(body) => Some(make_settings_around(args, body.as_str())),
                None => None,
            }
        },
        None => None,
    }
}

} // verus!
