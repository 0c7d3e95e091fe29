//! Packages: their names, platforms and targets, their manifests, and the
//! dependency graph among the packages of one workspace.

use super::dep_graph::{depends, exceeds_capacity, reachable_from, source_deps, DepGraph, GraphError, TableSource};
use crate::paths::{extension_of, file_name_of, joined, path_extension, path_file_name, path_join};
use crate::text::{
    char_len, find_char, lemma_lex_le_reflexive, lemma_lex_le_total, lemma_lex_le_transitive, lex_le, push_char,
    str_eq, str_le, substring,
};
use vstd::prelude::*;
use vstd::string::{StrSliceExecFns, StringExecFns};

verus! {

/// Where a package runs.
#[derive(Copy, Clone, PartialEq, Eq, Debug)]
pub enum Platform {
    Browser,
    Node,
}

impl Platform {
    /// Whether the platform is the browser.
    pub fn is_browser(self) -> (r: bool)
        ensures
            r == (self is Browser),
    {
        matches!(self, Platform::Browser)
    }

    /// Whether the platform is Node.
    pub fn is_node(self) -> (r: bool)
        ensures
            r == (self is Node),
    {
        matches!(self, Platform::Node)
    }

    /// The platform that a manifest names.
    pub fn from_name(name: &str) -> (r: Option<Platform>)
        ensures
            r == platform_named(name@),
    {
        if str_eq(name, "browser") {
            Some(Platform::Browser)
        } else if str_eq(name, "node") {
            Some(Platform::Node)
        } else {
            None
        }
    }

    /// The name by which the bundler knows the platform.
    pub fn to_esbuild_string(self) -> (r: &'static str)
        ensures
            r@ == platform_name(self),
    {
        match self {
            Platform::Browser => "browser",
            Platform::Node => "node",
        }
    }
}

/// The shape of what a package builds.
#[derive(Copy, Clone, PartialEq, Eq, Debug)]
pub enum Target {
    Lib,
    Site,
    Script,
}

/// The name of a target in a manifest.
pub open spec fn target_name(target: Target) -> Seq<char> {
    match target {
        Target::Lib => "lib"@,
        Target::Site => "site"@,
        Target::Script => "script"@,
    }
}

/// The name of a platform in a manifest.
pub open spec fn platform_name(platform: Platform) -> Seq<char> {
    if platform is Browser {
        "browser"@
    } else {
        "node"@
    }
}

/// A manifest that names a platform by its name names that platform.
pub proof fn lemma_platform_name_is_read(platform: Platform)
    ensures
        platform_named(platform_name(platform)) == Some(platform),
{
    reveal_strlit("browser");
    reveal_strlit("node");
    assert("browser"@.len() == 7 && "node"@.len() == 4);
}

/// A manifest that names a target by its name names that target.
pub proof fn lemma_target_name_is_read(target: Target)
    ensures
        target_named(target_name(target)) == Some(target),
{
    reveal_strlit("lib");
    reveal_strlit("site");
    reveal_strlit("script");
    assert("lib"@.len() == 3 && "site"@.len() == 4 && "script"@.len() == 6);
}

impl Target {
    /// The target that a manifest names.
    pub fn from_name(name: &str) -> (r: Option<Target>)
        ensures
            r == target_named(name@),
    {
        if str_eq(name, "lib") {
            Some(Target::Lib)
        } else if str_eq(name, "site") {
            Some(Target::Site)
        } else if str_eq(name, "script") {
            Some(Target::Script)
        } else {
            None
        }
    }

    /// The name of the target in a manifest.
    pub fn name(self) -> (r: &'static str)
        ensures
            r@ == target_name(self),
    {
        match self {
            Target::Lib => "lib",
            Target::Site => "site",
            Target::Script => "script",
        }
    }

    /// Whether the target is a library.
    pub fn is_lib(self) -> (r: bool)
        ensures
            r == (self is Lib),
    {
        matches!(self, Target::Lib)
    }

    /// Whether the target is a site.
    pub fn is_site(self) -> (r: bool)
        ensures
            r == (self is Site),
    {
        matches!(self, Target::Site)
    }

    /// Whether the target is a script.
    pub fn is_script(self) -> (r: bool)
        ensures
            r == (self is Script),
    {
        matches!(self, Target::Script)
    }
}

/// Why a package could not be made.
#[derive(Clone, PartialEq, Eq, Debug)]
pub enum PackageError {
    /// A name that starts with `@` holds no `/`, or more than one.
    InvalidName,
    /// The manifest at `path` has no `depot` entry.
    MissingConfig { path: String },
    /// Neither the manifest nor the package's directory gives a name.
    MissingName { root: String },
    /// The manifest names no target and the package at `root` has no source
    /// file to tell it by.
    UnknownTarget { root: String },
    /// The build settings of a manifest name no platform.
    MissingPlatform,
    /// The build settings of a manifest give `field` a value that it cannot have.
    BadSetting { field: String, value: String },
}

/// A package name as plain text: the local name, and the scope if it has one.
pub struct NameView {
    pub name: Seq<char>,
    pub scope: Option<Seq<char>>,
}

/// The name of a package: a local name, and a scope where it has one.
#[derive(Clone, PartialEq, Eq, Hash, Debug)]
pub struct PackageName {
    pub name: String,
    pub scope: Option<String>,
}

impl View for PackageName {
    type V = NameView;

    open spec fn view(&self) -> NameView {
        NameView {
            name: self.name@,
            scope: match self.scope {
                Some(scope) => Some(scope@),
                None => None,
            },
        }
    }
}

/// `s` holds a `/` at position `i` and nowhere else.
pub open spec fn only_slash_at(s: Seq<char>, i: int) -> bool {
    &&& 0 <= i < s.len()
    &&& s[i] == '/'
    &&& forall|j: int| 0 <= j < s.len() && j != i ==> s[j] != '/'
}

/// The name that `s` spells: `@scope/name` with exactly one `/` after the
/// `@`, or any text that does not start with `@`, taken whole as the name.
pub open spec fn parse_name(s: Seq<char>) -> Option<NameView> {
    if s.len() > 0 && s[0] == '@' {
        let rest = s.skip(1);
        if exists|i: int| only_slash_at(rest, i) {
            let i = choose|i: int| only_slash_at(rest, i);
            Some(NameView { name: rest.skip(i + 1), scope: Some(rest.take(i)) })
        } else {
            None
        }
    } else {
        Some(NameView { name: s, scope: None })
    }
}

/// The text that spells a name: `@scope/name`, or `name` alone.
pub open spec fn name_text(v: NameView) -> Seq<char> {
    match v.scope {
        Some(scope) => seq!['@'] + scope + seq!['/'] + v.name,
        None => v.name,
    }
}

/// A name that can be told from its text: neither a scope nor a scoped name
/// holds a `/`, and a name without scope does not start with `@`.
pub open spec fn is_plain_name(v: NameView) -> bool {
    match v.scope {
        Some(scope) => !scope.contains('/') && !v.name.contains('/'),
        None => v.name.len() == 0 || v.name[0] != '@',
    }
}

/// The text that spells a plain name spells that name and no other.
pub proof fn lemma_name_round_trip(v: NameView)
    requires
        is_plain_name(v),
    ensures
        parse_name(name_text(v)) == Some(v),
{
    match v.scope {
        Some(scope) => {
            let text = name_text(v);
            let rest = text.skip(1);
            let at = scope.len() as int;
            assert(text[0] == '@');
            assert(rest =~= scope + seq!['/'] + v.name);
            assert(only_slash_at(rest, at)) by {
                assert forall|j: int| 0 <= j < rest.len() && j != at implies rest[j] != '/' by {
                    if j < at {
                        assert(rest[j] == scope[j]);
                        assert(scope.contains(scope[j]));
                    } else {
                        assert(rest[j] == v.name[j - at - 1]);
                        assert(v.name.contains(v.name[j - at - 1]));
                    }
                }
            }
            let i = choose|i: int| only_slash_at(rest, i);
            assert(i == at);
            assert(rest.take(at) =~= scope);
            assert(rest.skip(at + 1) =~= v.name);
        },
        None => {},
    }
}

/// The upper-case form that `char::to_uppercase` gives for `c`.
pub uninterp spec fn uppercase_of(c: char) -> Seq<char>;

/// `char::to_uppercase`, collected: the result depends on the character alone.
#[verifier::external_body]
fn char_uppercase(c: char) -> (r: String)
    ensures
        r@ == uppercase_of(c),
{
    c.to_uppercase().collect()
}

/// The parts of `s` between its hyphens, each with its first character in
/// upper case, one after the other.
pub open spec fn global_var(s: Seq<char>) -> Seq<char>
    decreases s.len(),
{
    if s.len() == 0 {
        Seq::empty()
    } else {
        let init = s.drop_last();
        let c = s.last();
        if c == '-' {
            global_var(init)
        } else if init.len() == 0 || init.last() == '-' {
            global_var(init) + uppercase_of(c)
        } else {
            global_var(init).push(c)
        }
    }
}

/// Every part of `s` between its hyphens holds a character.
pub open spec fn parts_nonempty(s: Seq<char>) -> bool {
    &&& s.len() > 0
    &&& s.first() != '-'
    &&& s.last() != '-'
    &&& forall|i: int| 0 <= i < s.len() - 1 ==> !(#[trigger] s[i] == '-' && s[i + 1] == '-')
}

impl PackageName {
    /// Reads a name from its text.
    pub fn from_str(s: &str) -> (r: Result<PackageName, PackageError>)
        ensures
            match r {
                Ok(name) => parse_name(s@) == Some(name@),
                Err(e) => parse_name(s@) is None && e == PackageError::InvalidName,
            },
    {
        let n = char_len(s);
        if n > 0 && s.get_char(0) == '@' {
            let ghost rest = s@.skip(1);
            let i = find_char(s, '/', 1);
            if i == n {
                proof {
                    assert forall|k: int| !only_slash_at(rest, k) by {
                        if 0 <= k < rest.len() {
                            assert(rest[k] == s@[k + 1]);
                        }
                    }
                }
                return Err(PackageError::InvalidName);
            }
            let k = find_char(s, '/', i + 1);
            if k < n {
                proof {
                    assert(rest[i - 1] == '/');
                    assert(rest[k - 1] == '/');
                    assert forall|m: int| !only_slash_at(rest, m) by {}
                }
                return Err(PackageError::InvalidName);
            }
            let scope = substring(s, 1, i);
            let name = substring(s, i + 1, n);
            proof {
                assert(only_slash_at(rest, i - 1)) by {
                    assert forall|j: int| 0 <= j < rest.len() && j != i - 1 implies rest[j] != '/' by {
                        assert(rest[j] == s@[j + 1]);
                    }
                }
                let c = choose|c: int| only_slash_at(rest, c);
                assert(c == i - 1);
                assert(rest.skip(i as int) =~= s@.subrange(i + 1, n as int));
                assert(rest.take(i - 1) =~= s@.subrange(1, i as int));
            }
            Ok(PackageName { name, scope: Some(scope) })
        } else {
            Ok(PackageName { name: String::from_str(s), scope: None })
        }
    }

    /// The text that spells the name.
    pub fn to_string(&self) -> (r: String)
        ensures
            r@ == name_text(self@),
    {
        match &self.scope {
            Some(scope) => {
                let mut out = String::from_str("@");
                proof {
                    reveal_strlit("@");
                    reveal_strlit("/");
                    assert("@"@ =~= seq!['@']);
                    assert("/"@ =~= seq!['/']);
                }
                out.append(scope.as_str());
                out.append("/");
                out.append(self.name.as_str());
                out
            },
            None => self.name.clone(),
        }
    }

    /// Whether two names are the same.
    pub fn same_as(&self, other: &PackageName) -> (r: bool)
        ensures
            r == (self@ == other@),
    {
        let same_scope = match &self.scope {
            Some(a) => match &other.scope {
                Some(b) => *a == *b,
                None => false,
            },
            None => other.scope.is_none(),
        };
        self.name == other.name && same_scope
    }

    /// Whether no part of the name between hyphens is empty.
    pub fn has_nonempty_parts(&self) -> (r: bool)
        ensures
            r == parts_nonempty(self@.name),
    {
        let s = self.name.as_str();
        let n = char_len(s);
        if n == 0 || s.get_char(0) == '-' || s.get_char(n - 1) == '-' {
            return false;
        }
        let mut i: usize = 0;
        while i + 1 < n
            invariant
                s@ == self@.name,
                n == s@.len(),
                n > 0,
                i < n,
                forall|k: int| 0 <= k < i ==> !(#[trigger] s@[k] == '-' && s@[k + 1] == '-'),
            decreases n - i,
        {
            if s.get_char(i) == '-' && s.get_char(i + 1) == '-' {
                assert(s@[i as int] == '-' && s@[i as int + 1] == '-');
                return false;
            }
            i += 1;
        }
        true
    }

    /// The name as an identifier for a script's global variable: the parts
    /// of the local name between its hyphens, each capitalized, joined.
    pub fn as_global_var(&self) -> (r: String)
        requires
            parts_nonempty(self@.name),
        ensures
            r@ == global_var(self@.name),
    {
        let s = self.name.as_str();
        let n = char_len(s);
        let mut out = String::new();
        let mut at_start = true;
        let mut i: usize = 0;
        while i < n
            invariant
                i <= n,
                n == s@.len(),
                out@ == global_var(s@.take(i as int)),
                at_start == (i == 0 || s@[i - 1] == '-'),
            decreases n - i,
        {
            let c = s.get_char(i);
            proof {
                assert(s@.take(i + 1).drop_last() =~= s@.take(i as int));
                assert(s@.take(i + 1).last() == c);
                if i > 0 {
                    assert(s@.take(i as int).last() == s@[i - 1]);
                }
            }
            if c == '-' {
                at_start = true;
            } else if at_start {
                let upper = char_uppercase(c);
                out.append(upper.as_str());
                at_start = false;
            } else {
                push_char(&mut out, c);
                at_start = false;
            }
            i += 1;
        }
        proof {
            assert(s@.take(n as int) =~= s@);
        }
        out
    }
}

/// The order of names: by local name in dictionary order, and among equal
/// local names the unscoped one first, then by scope.
pub open spec fn name_le(a: NameView, b: NameView) -> bool {
    if a.name == b.name {
        match (a.scope, b.scope) {
            (None, _) => true,
            (Some(_), None) => false,
            (Some(x), Some(y)) => lex_le(x, y),
        }
    } else {
        lex_le(a.name, b.name)
    }
}

/// Every name comes before itself.
pub proof fn lemma_name_le_reflexive(a: NameView)
    ensures
        name_le(a, a),
{
    if a.scope is Some {
        lemma_lex_le_reflexive(a.scope->0);
    }
}

/// Of two names, one comes before the other.
pub proof fn lemma_name_le_total(a: NameView, b: NameView)
    ensures
        name_le(a, b) || name_le(b, a),
{
    lemma_lex_le_total(a.name, b.name);
    if a.scope is Some && b.scope is Some {
        lemma_lex_le_total(a.scope->0, b.scope->0);
    }
}

/// The order of names is transitive.
pub proof fn lemma_name_le_transitive(a: NameView, b: NameView, c: NameView)
    requires
        name_le(a, b),
        name_le(b, c),
    ensures
        name_le(a, c),
{
    if a.name == b.name && b.name == c.name {
        if a.scope is Some && b.scope is Some && c.scope is Some {
            lemma_lex_le_transitive(a.scope->0, b.scope->0, c.scope->0);
        }
    } else if a.name == b.name {
    } else if b.name == c.name {
    } else {
        lemma_lex_le_transitive(a.name, b.name, c.name);
        if a.name == c.name {
            crate::text::lemma_lex_le_antisymmetric(a.name, b.name);
        }
    }
}

/// Two names of which each comes before the other are one.
pub proof fn lemma_name_le_antisymmetric(a: NameView, b: NameView)
    requires
        name_le(a, b),
        name_le(b, a),
    ensures
        a == b,
{
    if a.name != b.name {
        crate::text::lemma_lex_le_antisymmetric(a.name, b.name);
    } else if a.scope is Some && b.scope is Some {
        crate::text::lemma_lex_le_antisymmetric(a.scope->0, b.scope->0);
    }
}

impl PackageName {
    /// Whether this name comes before `other`, or is the same.
    pub fn precedes(&self, other: &PackageName) -> (r: bool)
        ensures
            r == name_le(self@, other@),
    {
        if self.name == other.name {
            match &self.scope {
                None => true,
                Some(x) => match &other.scope {
                    None => false,
                    Some(y) => str_le(x.as_str(), y.as_str()),
                },
            }
        } else {
            str_le(self.name.as_str(), other.name.as_str())
        }
    }
}

/// What a package's manifest says of how the package is built.
#[derive(Clone, PartialEq, Eq, Debug)]
pub struct PackageDepotConfig {
    pub platform: Platform,
    pub target: Option<Target>,
    pub no_server: Option<bool>,
}

/// The platform that the text `name` names, if it names one.
pub open spec fn platform_named(name: Seq<char>) -> Option<Platform> {
    if name == "browser"@ {
        Some(Platform::Browser)
    } else if name == "node"@ {
        Some(Platform::Node)
    } else {
        None
    }
}

/// The target that the text `name` names, if it names one.
pub open spec fn target_named(name: Seq<char>) -> Option<Target> {
    if name == "lib"@ {
        Some(Target::Lib)
    } else if name == "site"@ {
        Some(Target::Site)
    } else if name == "script"@ {
        Some(Target::Script)
    } else {
        None
    }
}

impl PackageDepotConfig {
    /// The build settings with the fields that a manifest gives them: the
    /// platform, which has to be there, and the target and the switch for
    /// the server, which may be left out.
    pub fn from_fields(platform: Option<&str>, target: Option<&str>, no_server: Option<bool>) -> (r: Result<
        PackageDepotConfig,
        PackageError,
    >)
        ensures
            match r {
                Ok(config) => {
                    &&& platform is Some
                    &&& platform_named(platform->0@) == Some(config.platform)
                    &&& config.target == match target {
                        Some(name) => target_named(name@),
                        None => None,
                    }
                    &&& target is Some ==> target_named(target->0@) is Some
                    &&& config.no_server == no_server
                },
                Err(PackageError::MissingPlatform) => platform is None,
                Err(PackageError::BadSetting { field, value }) => {
                    &&& platform is Some
                    &&& if platform_named(platform->0@) is None {
                        field@ == "platform"@ && value@ == platform->0@
                    } else {
                        target is Some && target_named(target->0@) is None && field@ == "target"@ && value@ == target->0@
                    }
                },
                Err(_) => false,
            },
    {
        let platform_name = match platform {
            Some(name) => name,
            None => {
                return Err(PackageError::MissingPlatform);
            },
        };
        let platform = match Platform::from_name(platform_name) {
            Some(platform) => platform,
            None => {
                return Err(
                    PackageError::BadSetting { field: String::from_str("platform"), value: String::from_str(platform_name) },
                );
            },
        };
        let target = match target {
            Some(name) => match Target::from_name(name) {
                Some(target) => Some(target),
                None => {
                    return Err(
                        PackageError::BadSetting { field: String::from_str("target"), value: String::from_str(name) },
                    );
                },
            },
            None => None,
        };
        Ok(PackageDepotConfig { platform, target, no_server })
    }
}

/// What was read from a manifest file, before it is known to describe a package.
pub struct RawManifest {
    pub name: Option<String>,
    pub dependencies: Vec<String>,
    pub dev_dependencies: Vec<String>,
    pub peer_dependencies: Vec<String>,
    pub config: Option<PackageDepotConfig>,
}

/// The manifest of a package: its declared name and dependencies, and its
/// build settings.
pub struct PackageManifest {
    pub name: Option<String>,
    pub dependencies: Vec<String>,
    pub dev_dependencies: Vec<String>,
    pub peer_dependencies: Vec<String>,
    pub config: PackageDepotConfig,
}

impl PackageManifest {
    /// Accepts what was read from the manifest at `path`, provided that it
    /// holds build settings.
    pub fn from_json(raw: RawManifest, path: &str) -> (r: Result<PackageManifest, PackageError>)
        ensures
            match r {
                Ok(m) => {
                    &&& raw.config == Some(m.config)
                    &&& m.name == raw.name
                    &&& m.dependencies == raw.dependencies
                    &&& m.dev_dependencies == raw.dev_dependencies
                    &&& m.peer_dependencies == raw.peer_dependencies
                },
                Err(e) => {
                    &&& raw.config is None
                    &&& e matches PackageError::MissingConfig { path: p }
                    &&& p@ == path@
                },
            },
    {
        match raw.config {
            Some(config) => Ok(
                PackageManifest {
                    name: raw.name,
                    dependencies: raw.dependencies,
                    dev_dependencies: raw.dev_dependencies,
                    peer_dependencies: raw.peer_dependencies,
                    config,
                },
            ),
            None => Err(PackageError::MissingConfig { path: String::from_str(path) }),
        }
    }

    /// The names that the manifest lists as dependencies of any kind, as they
    /// are written: first the regular ones, then those for development, then
    /// the peers.
    pub open spec fn listed(&self) -> Seq<Seq<char>> {
        texts(self.dependencies@) + texts(self.dev_dependencies@) + texts(self.peer_dependencies@)
    }
}

/// The characters of each string of `list`.
pub open spec fn texts(list: Seq<String>) -> Seq<Seq<char>> {
    list.map_values(|s: String| s@)
}

/// The names that the texts of `list` spell, in their order; a text that
/// spells no name is passed over.
pub open spec fn parsed_names(list: Seq<Seq<char>>) -> Seq<NameView>
    decreases list.len(),
{
    if list.len() == 0 {
        Seq::empty()
    } else {
        match parse_name(list.last()) {
            Some(name) => parsed_names(list.drop_last()).push(name),
            None => parsed_names(list.drop_last()),
        }
    }
}

/// Reading a longer list continues the reading of a shorter one.
pub proof fn lemma_parsed_names_concat(a: Seq<Seq<char>>, b: Seq<Seq<char>>)
    ensures
        parsed_names(a + b) == parsed_names(a) + parsed_names(b),
    decreases b.len(),
{
    if b.len() == 0 {
        assert(a + b =~= a);
        assert(parsed_names(a) + parsed_names(b) =~= parsed_names(a));
    } else {
        assert((a + b).drop_last() =~= a + b.drop_last());
        assert((a + b).last() == b.last());
        lemma_parsed_names_concat(a, b.drop_last());
        match parse_name(b.last()) {
            Some(name) => {
                assert((parsed_names(a) + parsed_names(b.drop_last())).push(name)
                    =~= parsed_names(a) + parsed_names(b.drop_last()).push(name));
            },
            None => {},
        }
    }
}

/// The views of a list of names.
pub open spec fn name_views(names: Seq<PackageName>) -> Seq<NameView> {
    names.map_values(|n: PackageName| n@)
}

/// Appends to `out` the names that the texts of `list` spell.
fn parse_into(list: &Vec<String>, out: &mut Vec<PackageName>)
    ensures
        name_views(final(out)@) == name_views(old(out)@) + parsed_names(texts(list@)),
{
    let ghost before = name_views(out@);
    let mut i: usize = 0;
    proof {
        assert(texts(list@).take(0) =~= Seq::<Seq<char>>::empty());
        assert(before + parsed_names(texts(list@).take(0)) =~= before);
    }
    while i < list.len()
        invariant
            i <= list.len(),
            name_views(out@) == before + parsed_names(texts(list@).take(i as int)),
        decreases list.len() - i,
    {
        let ghost t = texts(list@);
        proof {
            assert(t.take(i + 1).drop_last() =~= t.take(i as int));
            assert(t.take(i + 1).last() == list@[i as int]@);
        }
        match PackageName::from_str(list[i].as_str()) {
            Ok(name) => {
                let ghost prev = out@;
                out.push(name);
                proof {
                    assert(name_views(out@) =~= name_views(prev).push(name@));
                    assert((before + parsed_names(t.take(i as int))).push(name@)
                        =~= before + parsed_names(t.take(i as int)).push(name@));
                }
            },
            Err(_) => {},
        }
        i += 1;
    }
    proof {
        assert(texts(list@).take(list@.len() as int) =~= texts(list@));
    }
}

/// What is known of a package's source directory: whether it holds an entry
/// file for a library, for a script, for a site.
#[derive(Copy, Clone, PartialEq, Eq, Debug)]
pub struct SourceProbe {
    pub has_lib: bool,
    pub has_main: bool,
    pub has_index: bool,
}

/// The target of a package: the one its settings name, else the one its
/// entry file tells, a library before a script before a site.
pub open spec fn inferred_target(configured: Option<Target>, probe: SourceProbe) -> Option<Target> {
    if configured is Some {
        configured
    } else if probe.has_lib {
        Some(Target::Lib)
    } else if probe.has_main {
        Some(Target::Script)
    } else if probe.has_index {
        Some(Target::Site)
    } else {
        None
    }
}

pub type PackageIndex = usize;

/// A package of a workspace.
pub struct Package {
    pub root: String,
    pub manifest: PackageManifest,
    pub platform: Platform,
    pub target: Target,
    pub name: PackageName,
    pub index: PackageIndex,
}

/// The text that names a package: the name its manifest declares, else the
/// name of its directory.
pub open spec fn declared_name(name: Option<String>, root: Seq<char>) -> Option<Seq<char>> {
    match name {
        Some(name) => Some(name@),
        None => file_name_of(root),
    }
}

impl Package {
    /// The files that may be the entry file `base` of the package at `root`,
    /// in the order in which they are to be looked for.
    pub fn find_source_file(root: &str, base: &str) -> (r: Vec<String>)
        ensures
            r@.len() == 3,
            r@[0]@ == joined(joined(root@, "src"@), base@ + ".tsx"@),
            r@[1]@ == joined(joined(root@, "src"@), base@ + ".ts"@),
            r@[2]@ == joined(joined(root@, "src"@), base@ + ".js"@),
    {
        let src = path_join(root, "src");
        let mut out: Vec<String> = Vec::new();
        let tsx = String::from_str(base).concat(".tsx");
        out.push(path_join(src.as_str(), tsx.as_str()));
        let ts = String::from_str(base).concat(".ts");
        out.push(path_join(src.as_str(), ts.as_str()));
        let js = String::from_str(base).concat(".js");
        out.push(path_join(src.as_str(), js.as_str()));
        out
    }

    /// Puts a package together from its parts. Its platform is the one its
    /// settings name, and its name the one that its manifest or else its
    /// directory gives.
    pub fn from_parts(root: String, manifest: PackageManifest, index: PackageIndex, target: Target) -> (r: Result<
        Package,
        PackageError,
    >)
        ensures
            match r {
                Ok(pkg) => {
                    &&& declared_name(manifest.name, root@) is Some
                    &&& parse_name(declared_name(manifest.name, root@)->0) == Some(pkg.name@)
                    &&& pkg.root == root
                    &&& pkg.manifest == manifest
                    &&& pkg.platform == manifest.config.platform
                    &&& pkg.target == target
                    &&& pkg.index == index
                },
                Err(PackageError::MissingName { root: at }) => declared_name(manifest.name, root@) is None && at == root,
                Err(PackageError::InvalidName) => declared_name(manifest.name, root@) is Some && parse_name(
                    declared_name(manifest.name, root@)->0,
                ) is None,
                Err(_) => false,
            },
    {
        let platform = manifest.config.platform;
        let parsed = match &manifest.name {
            Some(name) => PackageName::from_str(name.as_str()),
            None => match path_file_name(root.as_str()) {
                Some(dir) => PackageName::from_str(dir.as_str()),
                None => {
                    return Err(PackageError::MissingName { root });
                },
            },
        };
        match parsed {
            Ok(name) => Ok(Package { root, manifest, platform, target, name, index }),
            Err(_) => Err(PackageError::InvalidName),
        }
    }

    /// The target of the package at `root`, from its settings or else from
    /// what its source directory holds.
    pub fn infer_target(root: &str, configured: Option<Target>, probe: SourceProbe) -> (r: Result<Target, PackageError>)
        ensures
            match r {
                Ok(target) => inferred_target(configured, probe) == Some(target),
                Err(e) => {
                    &&& inferred_target(configured, probe) is None
                    &&& e matches PackageError::UnknownTarget { root: at }
                    &&& at@ == root@
                },
            },
    {
        if let Some(target) = configured {
            Ok(target)
        } else if probe.has_lib {
            Ok(Target::Lib)
        } else if probe.has_main {
            Ok(Target::Script)
        } else if probe.has_index {
            Ok(Target::Site)
        } else {
            Err(PackageError::UnknownTarget { root: String::from_str(root) })
        }
    }

    /// Makes the package at `root`, which is to be an absolute path without
    /// links, from what was read of its manifest and its source directory.
    pub fn load(root: String, raw: RawManifest, probe: SourceProbe, index: PackageIndex) -> (r: Result<Package, PackageError>)
        ensures
            match r {
                Ok(pkg) => {
                    &&& raw.config is Some
                    &&& inferred_target(raw.config->0.target, probe) == Some(pkg.target)
                    &&& pkg.platform == raw.config->0.platform
                    &&& pkg.manifest.config == raw.config->0
                    &&& pkg.manifest.name == raw.name
                    &&& pkg.manifest.dependencies == raw.dependencies
                    &&& pkg.manifest.dev_dependencies == raw.dev_dependencies
                    &&& pkg.manifest.peer_dependencies == raw.peer_dependencies
                    &&& declared_name(raw.name, root@) is Some
                    &&& parse_name(declared_name(raw.name, root@)->0) == Some(pkg.name@)
                    &&& pkg.root == root
                    &&& pkg.index == index
                },
                Err(PackageError::MissingConfig { path }) => raw.config is None && path@ == joined(root@, "package.json"@),
                Err(PackageError::UnknownTarget { root: at }) => {
                    &&& raw.config is Some
                    &&& inferred_target(raw.config->0.target, probe) is None
                    &&& at@ == root@
                },
                Err(PackageError::MissingName { root: at }) => {
                    &&& raw.config is Some
                    &&& inferred_target(raw.config->0.target, probe) is Some
                    &&& declared_name(raw.name, root@) is None
                    &&& at == root
                },
                Err(PackageError::InvalidName) => {
                    &&& raw.config is Some
                    &&& inferred_target(raw.config->0.target, probe) is Some
                    &&& declared_name(raw.name, root@) is Some
                    &&& parse_name(declared_name(raw.name, root@)->0) is None
                },
                Err(_) => false,
            },
    {
        let manifest_path = path_join(root.as_str(), "package.json");
        let manifest = match PackageManifest::from_json(raw, manifest_path.as_str()) {
            Ok(manifest) => manifest,
            Err(e) => {
                return Err(e);
            },
        };
        let target = match Package::infer_target(root.as_str(), manifest.config.target, probe) {
            Ok(target) => target,
            Err(e) => {
                return Err(e);
            },
        };
        Package::from_parts(root, manifest, index, target)
    }

    /// The names of the packages that this package declares as dependencies
    /// of any kind.
    pub fn all_dependencies(&self) -> (r: Vec<PackageName>)
        ensures
            name_views(r@) == parsed_names(self.manifest.listed()),
    {
        let mut out: Vec<PackageName> = Vec::new();
        proof {
            assert(name_views(out@) =~= Seq::<NameView>::empty());
        }
        parse_into(&self.manifest.dependencies, &mut out);
        parse_into(&self.manifest.dev_dependencies, &mut out);
        parse_into(&self.manifest.peer_dependencies, &mut out);
        proof {
            let a = texts(self.manifest.dependencies@);
            let b = texts(self.manifest.dev_dependencies@);
            let c = texts(self.manifest.peer_dependencies@);
            lemma_parsed_names_concat(a, b);
            lemma_parsed_names_concat(a + b, c);
            assert(Seq::<NameView>::empty() + parsed_names(a) =~= parsed_names(a));
        }
        out
    }
}

/// An extension of a file that is copied as it is when a library is built.
pub open spec fn is_asset_extension(ext: Seq<char>) -> bool {
    ext == "scss"@ || ext == "css"@ || ext == "jpeg"@ || ext == "jpg"@ || ext == "png"@ || ext == "svg"@
}

/// An extension of a file that holds source code.
pub open spec fn is_source_extension(ext: Seq<char>) -> bool {
    ext == "ts"@ || ext == "tsx"@ || ext == "html"@
}

/// The file at `path` is an asset.
pub open spec fn is_asset_file(path: Seq<char>) -> bool {
    extension_of(path) is Some && is_asset_extension(extension_of(path)->0)
}

/// The file at `path` holds source code.
pub open spec fn is_source_file(path: Seq<char>) -> bool {
    extension_of(path) is Some && is_source_extension(extension_of(path)->0)
}

/// The paths of `files` that `keep` accepts, in their order.
pub open spec fn kept(files: Seq<String>, keep: spec_fn(Seq<char>) -> bool) -> Seq<String>
    decreases files.len(),
{
    if files.len() == 0 {
        Seq::empty()
    } else if keep(files.last()@) {
        kept(files.drop_last(), keep).push(files.last())
    } else {
        kept(files.drop_last(), keep)
    }
}

/// Whether the file at `path` is an asset.
pub fn has_asset_extension(path: &str) -> (r: bool)
    ensures
        r == is_asset_file(path@),
{
    match path_extension(path) {
        Some(ext) => {
            let e = ext.as_str();
            str_eq(e, "scss") || str_eq(e, "css") || str_eq(e, "jpeg") || str_eq(e, "jpg") || str_eq(e, "png") || str_eq(
                e,
                "svg",
            )
        },
        None => false,
    }
}

/// Whether the file at `path` holds source code.
pub fn has_source_extension(path: &str) -> (r: bool)
    ensures
        r == is_source_file(path@),
{
    match path_extension(path) {
        Some(ext) => {
            let e = ext.as_str();
            str_eq(e, "ts") || str_eq(e, "tsx") || str_eq(e, "html")
        },
        None => false,
    }
}

impl Package {
    /// The assets among the files of the package's source directory.
    pub fn asset_files(src_files: &Vec<String>) -> (r: Vec<String>)
        ensures
            r@ == kept(src_files@, |p: Seq<char>| is_asset_file(p)),
    {
        let ghost keep = |p: Seq<char>| is_asset_file(p);
        let mut out: Vec<String> = Vec::new();
        let mut i: usize = 0;
        while i < src_files.len()
            invariant
                i <= src_files.len(),
                keep == (|p: Seq<char>| is_asset_file(p)),
                out@ == kept(src_files@.take(i as int), keep),
            decreases src_files.len() - i,
        {
            proof {
                assert(src_files@.take(i + 1).drop_last() =~= src_files@.take(i as int));
            }
            if has_asset_extension(src_files[i].as_str()) {
                out.push(src_files[i].clone());
            }
            i += 1;
        }
        proof {
            assert(src_files@.take(src_files@.len() as int) =~= src_files@);
        }
        out
    }
}

impl Package {
    /// The files that hold source code among those of the package's source
    /// directory, followed by those among the files of its test directory.
    pub fn source_files(src_files: &Vec<String>, test_files: &Vec<String>) -> (r: Vec<String>)
        ensures
            r@ == kept(src_files@, |p: Seq<char>| is_source_file(p)) + kept(test_files@, |p: Seq<char>| is_source_file(p)),
    {
        let mut out: Vec<String> = Vec::new();
        Package::keep_sources(src_files, &mut out);
        Package::keep_sources(test_files, &mut out);
        proof {
            assert(Seq::<String>::empty() + kept(src_files@, |p: Seq<char>| is_source_file(p)) =~= kept(
                src_files@,
                |p: Seq<char>| is_source_file(p),
            ));
        }
        out
    }

    fn keep_sources(files: &Vec<String>, out: &mut Vec<String>)
        ensures
            final(out)@ == old(out)@ + kept(files@, |p: Seq<char>| is_source_file(p)),
    {
        let ghost keep = |p: Seq<char>| is_source_file(p);
        let ghost before = out@;
        let mut i: usize = 0;
        proof {
            assert(before + kept(files@.take(0), keep) =~= before);
        }
        while i < files.len()
            invariant
                i <= files.len(),
                keep == (|p: Seq<char>| is_source_file(p)),
                out@ == before + kept(files@.take(i as int), keep),
            decreases files.len() - i,
        {
            proof {
                assert(files@.take(i + 1).drop_last() =~= files@.take(i as int));
            }
            if has_source_extension(files[i].as_str()) {
                out.push(files[i].clone());
                proof {
                    assert((before + kept(files@.take(i as int), keep)).push(files@[i as int]) =~= before + kept(
                        files@.take(i as int),
                        keep,
                    ).push(files@[i as int]));
                }
            }
            i += 1;
        }
        proof {
            assert(files@.take(files@.len() as int) =~= files@);
        }
    }
}

/// The package at position `i` is the first one that carries `name`.
pub open spec fn named_at(packages: Seq<Package>, name: NameView, i: int) -> bool {
    &&& 0 <= i < packages.len()
    &&& packages[i].name@ == name
    &&& forall|j: int| 0 <= j < i ==> (#[trigger] packages[j]).name@ != name
}

/// The position of the first package that carries `name`, if there is one.
pub open spec fn position_of(packages: Seq<Package>, name: NameView) -> Option<int> {
    if exists|i: int| named_at(packages, name, i) {
        Some(choose|i: int| named_at(packages, name, i))
    } else {
        None
    }
}

/// The positions of the packages that `names` name, in the order of the
/// names; a name that no package carries is passed over.
pub open spec fn resolved(packages: Seq<Package>, names: Seq<NameView>) -> Seq<u64>
    decreases names.len(),
{
    if names.len() == 0 {
        Seq::empty()
    } else {
        match position_of(packages, names.last()) {
            Some(i) => resolved(packages, names.drop_last()).push(i as u64),
            None => resolved(packages, names.drop_last()),
        }
    }
}

/// The positions of the members of `packages` that the package at position
/// `x` declares as dependencies; none for a position beyond the list.
pub open spec fn package_deps(packages: Seq<Package>) -> spec_fn(u64) -> Seq<u64> {
    |x: u64|
        if x < packages.len() {
            resolved(packages, parsed_names(packages[x as int].manifest.listed()))
        } else {
            Seq::empty()
        }
}

/// The position of the first package named `name`, if there is one.
pub fn find_package(packages: &Vec<Package>, name: &PackageName) -> (r: Option<usize>)
    ensures
        match r {
            Some(i) => position_of(packages@, name@) == Some(i as int),
            None => position_of(packages@, name@) is None,
        },
        r is None <==> forall|i: int| 0 <= i < packages@.len() ==> (#[trigger] packages@[i]).name@ != name@,
        r is Some ==> named_at(packages@, name@, r->0 as int),
{
    let mut i: usize = 0;
    while i < packages.len()
        invariant
            i <= packages.len(),
            forall|j: int| 0 <= j < i ==> (#[trigger] packages@[j]).name@ != name@,
        decreases packages.len() - i,
    {
        if packages[i].name.same_as(name) {
            proof {
                assert(named_at(packages@, name@, i as int));
                let c = choose|c: int| named_at(packages@, name@, c);
                assert(c == i) by {
                    if c < i {
                        assert(packages@[c].name@ != name@);
                    }
                    if i < c {
                        assert(packages@[i as int].name@ != name@);
                    }
                }
            }
            return Some(i);
        }
        i += 1;
    }
    proof {
        assert forall|c: int| !named_at(packages@, name@, c) by {
            if 0 <= c < packages@.len() {
                assert(packages@[c].name@ != name@);
            }
        }
    }
    None
}

/// Writes down, for every package, its name and the positions of the members
/// it depends on.
pub fn package_table(packages: &Vec<Package>) -> (table: TableSource)
    ensures
        table.deps@.len() == packages@.len(),
        table.names@.len() == packages@.len(),
        forall|i: int| 0 <= i < packages@.len() ==> (#[trigger] table.deps@[i])@ == package_deps(packages@)(i as u64),
        forall|i: int| 0 <= i < packages@.len() ==> (#[trigger] table.names@[i])@ == name_text(packages@[i].name@),
        source_deps(&table) == package_deps(packages@),
{
    let mut deps: Vec<Vec<u64>> = Vec::new();
    let mut names: Vec<String> = Vec::new();
    let mut i: usize = 0;
    while i < packages.len()
        invariant
            i <= packages.len(),
            deps@.len() == i,
            names@.len() == i,
            forall|k: int| 0 <= k < i ==> (#[trigger] deps@[k])@ == package_deps(packages@)(k as u64),
            forall|k: int| 0 <= k < i ==> (#[trigger] names@[k])@ == name_text(packages@[k].name@),
        decreases packages.len() - i,
    {
        let wanted = packages[i].all_dependencies();
        let ghost views = name_views(wanted@);
        let mut row: Vec<u64> = Vec::new();
        let mut j: usize = 0;
        while j < wanted.len()
            invariant
                j <= wanted.len(),
                views == name_views(wanted@),
                row@ == resolved(packages@, views.take(j as int)),
            decreases wanted.len() - j,
        {
            proof {
                assert(views.take(j + 1).drop_last() =~= views.take(j as int));
                assert(views.take(j + 1).last() == wanted@[j as int]@);
            }
            match find_package(packages, &wanted[j]) {
                Some(at) => {
                    row.push(at as u64);
                },
                None => {},
            }
            j += 1;
        }
        proof {
            assert(views.take(wanted@.len() as int) =~= views);
        }
        deps.push(row);
        names.push(packages[i].name.to_string());
        i += 1;
    }
    let table = TableSource { deps, names };
    proof {
        assert forall|x: u64| #[trigger] source_deps(&table)(x) == package_deps(packages@)(x) by {
            if x < packages@.len() {
                assert(table.deps@[x as int]@ == package_deps(packages@)(x as int as u64));
            }
        }
        assert(source_deps(&table) =~= package_deps(packages@));
    }
    table
}

/// The graph of the packages that `roots` reach through their declared
/// dependencies on members of `packages`. Packages are labelled by position.
pub fn build_package_graph(packages: &Vec<Package>, roots: Vec<u64>) -> (res: Result<DepGraph, GraphError>)
    ensures
        match res {
            Ok(g) => {
                &&& g.wf()
                &&& g.spec_roots() == roots@
                &&& forall|x: u64| #[trigger] g.has_node(x) <==> reachable_from(package_deps(packages@), roots@, x)
                &&& forall|x: u64| #[trigger] g.has_node(x) ==> g.deps(x) == package_deps(packages@)(x)
                &&& forall|x: u64| #[trigger] g.has_node(x) ==> !depends(package_deps(packages@), x, x)
                &&& !exceeds_capacity(package_deps(packages@), roots@)
            },
            Err(GraphError::TooLarge) => exceeds_capacity(package_deps(packages@), roots@),
            Err(GraphError::CycleDetected { node, name }) => {
                &&& !exceeds_capacity(package_deps(packages@), roots@)
                &&& reachable_from(package_deps(packages@), roots@, node)
                &&& depends(package_deps(packages@), node, node)
                &&& name@ == (if node < packages@.len() {
                    name_text(packages@[node as int].name@)
                } else {
                    Seq::empty()
                })
            },
        },
{
    let table = package_table(packages);
    DepGraph::build_from(roots, &table)
}

/// Every position that names resolve to is the position of a package.
pub proof fn lemma_resolved_in_range(packages: Seq<Package>, names: Seq<NameView>)
    ensures
        forall|d: u64| #[trigger] resolved(packages, names).contains(d) ==> d < packages.len(),
    decreases names.len(),
{
    if names.len() > 0 {
        lemma_resolved_in_range(packages, names.drop_last());
        let rest = resolved(packages, names.drop_last());
        assert forall|d: u64| #[trigger] resolved(packages, names).contains(d) implies d < packages.len() by {
            match position_of(packages, names.last()) {
                Some(i) => {
                    let r = rest.push(i as u64);
                    let k = choose|k: int| 0 <= k < r.len() && r[k] == d;
                    if k < rest.len() {
                        assert(rest[k] == d);
                        assert(rest.contains(d));
                    } else {
                        assert(named_at(packages, names.last(), i));
                    }
                },
                None => {},
            }
        }
    }
}

/// What is said to the user of an error with a package.
pub open spec fn package_error_text(e: PackageError) -> Seq<char> {
    match e {
        PackageError::InvalidName => "Invalid package name"@,
        PackageError::MissingConfig { path } => "Missing \"depot\" key from manifest: `"@ + path@ + "`"@,
        PackageError::MissingName { root } => "Package has no name: `"@ + root@ + "`"@,
        PackageError::UnknownTarget { root } => "Could not infer target. Consider adding a \"target\" entry under \"depot\" to: "@
            + joined(root@, "package.json"@),
        PackageError::MissingPlatform => "Missing \"platform\" in the \"depot\" settings"@,
        PackageError::BadSetting { field, value } => "Unknown "@ + field@ + ": "@ + value@,
    }
}

impl PackageError {
    /// What is said to the user.
    pub fn to_string(&self) -> (r: String)
        ensures
            r@ == package_error_text(*self),
    {
        match self {
            PackageError::InvalidName => String::from_str("Invalid package name"),
            PackageError::MissingConfig { path } => {
                let mut out = String::from_str("Missing \"depot\" key from manifest: `");
                out.append(path.as_str());
                out.append("`");
                out
            },
            PackageError::MissingName { root } => {
                let mut out = String::from_str("Package has no name: `");
                out.append(root.as_str());
                out.append("`");
                out
            },
            PackageError::UnknownTarget { root } => {
                let mut out = String::from_str(
                    "Could not infer target. Consider adding a \"target\" entry under \"depot\" to: ",
                );
                let manifest = path_join(root.as_str(), "package.json");
                out.append(manifest.as_str());
                out
            },
            PackageError::MissingPlatform => String::from_str("Missing \"platform\" in the \"depot\" settings"),
            PackageError::BadSetting { field, value } => {
                let mut out = String::from_str("Unknown ");
                out.append(field.as_str());
                out.append(": ");
                out.append(value.as_str());
                out
            },
        }
    }
}

} // verus!
