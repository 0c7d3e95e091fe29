//! The workspace model: packages, dependency graphs, tasks and their scheduling.

pub mod command;
pub mod dep_graph;
pub mod fingerprint;
pub mod graph_growth;
pub mod graph_model;
pub mod graph_store;
pub mod order;
pub mod package;
pub mod process;
pub mod runner;
pub mod task;

use self::dep_graph::{DepGraph, GraphError};
use self::fingerprint::Fingerprints;
use self::process::Process;
use self::order::{display_order, free_after, is_display_order, package_names};
use self::package::{
    build_package_graph, find_package, name_le, package_deps, position_of, Package, PackageIndex, PackageName,
};
use crate::commands::setup::GlobalConfig;
use crate::paths::{components_of, joined, path_components, path_join, path_strip_prefix, stripped};
use crate::logger::ringbuffer::DEFAULT_MAX_CAPACITY;
use crate::text::str_eq;
use vstd::prelude::*;
use vstd::string::StringExecFns;

verus! {

/// The arguments that every command takes.
pub struct CommonArgs {
    /// Only run the command for a given package and its dependencies
    pub package: Option<PackageName>,
    /// Enable incremental compilation
    pub incremental: bool,
    /// Disable fullscreen UI
    pub no_fullscreen: bool,
}

/// Why a workspace could not be made or asked.
#[derive(Clone, PartialEq, Eq, Debug)]
pub enum WorkspaceError {
    /// No directory from `cwd` up to the outermost one holds a manifest.
    RootNotFound { cwd: String },
    /// The working directory does not lie below the outermost directory.
    OutsideCeiling { cwd: String, ceiling: String },
    /// No package of the workspace is called `name`.
    PackageNotFound { name: String },
    /// The package at this position carries another position as its index.
    MisplacedPackage { position: usize },
    /// The packages depend on each other in a circle, or are too many.
    Graph(GraphError),
    /// The executable that a script stands for does not exist.
    MissingExecutable { path: String },
}

/// The directories in which a workspace's manifest is looked for: the working
/// directory first, then each directory above it, up to the outermost one.
/// `parts` holds the components of the working directory below the outermost one.
pub open spec fn root_candidates(ceiling: Seq<char>, parts: Seq<Seq<char>>) -> Seq<Seq<char>> {
    Seq::new(parts.len() + 1, |i: int| prefix_path(ceiling, parts.take(parts.len() - i)))
}

/// The directory reached from `base` by going down through `parts`.
pub open spec fn prefix_path(base: Seq<char>, parts: Seq<Seq<char>>) -> Seq<char>
    decreases parts.len(),
{
    if parts.len() == 0 {
        base
    } else {
        joined(prefix_path(base, parts.drop_last()), parts.last())
    }
}

/// The first position at which `found` holds `true`, if there is one.
pub open spec fn first_true(found: Seq<bool>) -> Option<int> {
    if exists|i: int| is_first_true(found, i) {
        Some(choose|i: int| is_first_true(found, i))
    } else {
        None
    }
}

/// `found` holds `true` at position `i` and at no earlier one.
pub open spec fn is_first_true(found: Seq<bool>, i: int) -> bool {
    &&& 0 <= i < found.len()
    &&& found[i]
    &&& forall|j: int| 0 <= j < i ==> !found[j]
}

/// The directories in which the manifest of the workspace around `cwd` is
/// looked for, nearest first, none of them above `max_ancestor`.
pub fn workspace_root_candidates(max_ancestor: &str, cwd: &str) -> (r: Result<Vec<String>, WorkspaceError>)
    ensures
        match r {
            Ok(dirs) => {
                &&& stripped(cwd@, max_ancestor@) is Some
                &&& dirs@.map_values(|d: String| d@) == root_candidates(
                    max_ancestor@,
                    components_of(stripped(cwd@, max_ancestor@)->0),
                )
            },
            Err(e) => {
                &&& stripped(cwd@, max_ancestor@) is None
                &&& e matches WorkspaceError::OutsideCeiling { cwd: c, ceiling: m }
                &&& c@ == cwd@
                &&& m@ == max_ancestor@
            },
        },
{
    let rest = match path_strip_prefix(cwd, max_ancestor) {
        Some(rest) => rest,
        None => {
            return Err(
                WorkspaceError::OutsideCeiling { cwd: String::from_str(cwd), ceiling: String::from_str(max_ancestor) },
            );
        },
    };
    let parts = path_components(rest.as_str());
    let ghost texts = components_of(rest@);
    let n = parts.len();
    // The directories from the outermost one down to the working directory.
    let mut down: Vec<String> = Vec::new();
    down.push(String::from_str(max_ancestor));
    proof {
        assert(texts.take(0) =~= Seq::<Seq<char>>::empty());
    }
    let mut i: usize = 0;
    while i < n
        invariant
            i <= n,
            n == parts@.len(),
            texts.len() == n,
            forall|k: int| 0 <= k < n ==> (#[trigger] parts@[k])@ == texts[k],
            down@.len() == i + 1,
            forall|k: int| 0 <= k <= i ==> (#[trigger] down@[k])@ == prefix_path(max_ancestor@, texts.take(k)),
        decreases n - i,
    {
        let next = path_join(down[i].as_str(), parts[i].as_str());
        proof {
            assert(texts.take(i + 1).drop_last() =~= texts.take(i as int));
            assert(texts.take(i + 1).last() == texts[i as int]);
        }
        down.push(next);
        i += 1;
    }
    let mut dirs: Vec<String> = Vec::new();
    let mut k: usize = 0;
    while k <= n
        invariant
            k <= n + 1,
            n == texts.len(),
            down@.len() == n + 1,
            forall|m: int| 0 <= m <= n ==> (#[trigger] down@[m])@ == prefix_path(max_ancestor@, texts.take(m)),
            dirs@.len() == k,
            forall|m: int| 0 <= m < k ==> (#[trigger] dirs@[m])@ == prefix_path(max_ancestor@, texts.take(n - m)),
        decreases n + 1 - k,
    {
        dirs.push(down[n - k].clone());
        k += 1;
    }
    proof {
        assert(dirs@.map_values(|d: String| d@) =~= root_candidates(max_ancestor@, texts));
    }
    Ok(dirs)
}

/// The root of the workspace around `cwd`: the first of `candidates` that
/// holds a manifest, which `has_manifest` tells of each in turn.
pub fn find_workspace_root(candidates: &Vec<String>, has_manifest: &Vec<bool>, cwd: &str) -> (r: Result<String, WorkspaceError>)
    requires
        candidates@.len() == has_manifest@.len(),
    ensures
        match r {
            Ok(root) => first_true(has_manifest@) is Some && root == candidates@[first_true(has_manifest@)->0],
            Err(e) => {
                &&& first_true(has_manifest@) is None
                &&& e matches WorkspaceError::RootNotFound { cwd: c }
                &&& c@ == cwd@
            },
        },
{
    let mut i: usize = 0;
    while i < candidates.len()
        invariant
            i <= candidates@.len(),
            candidates@.len() == has_manifest@.len(),
            forall|j: int| 0 <= j < i ==> !has_manifest@[j],
        decreases candidates.len() - i,
    {
        if has_manifest[i] {
            proof {
                assert(is_first_true(has_manifest@, i as int));
                let c = choose|c: int| is_first_true(has_manifest@, c);
                assert(c == i);
            }
            return Ok(candidates[i].clone());
        }
        i += 1;
    }
    proof {
        assert forall|c: int| !is_first_true(has_manifest@, c) by {}
    }
    Err(WorkspaceError::RootNotFound { cwd: String::from_str(cwd) })
}

/// A workspace: its packages, how they depend on each other, and in what
/// order they are shown.
pub struct Workspace {
    pub root: String,
    pub packages: Vec<Package>,
    pub monorepo: bool,
    pub global_config: GlobalConfig,
    pub pkg_graph: DepGraph,
    pub common: CommonArgs,
    pub roots: Vec<u64>,
    pub fingerprints: Fingerprints,
    pub package_display_order: Vec<PackageIndex>,
}

/// Each package stands at the position that is its index.
pub open spec fn well_placed(packages: Seq<Package>) -> bool {
    forall|i: int| 0 <= i < packages.len() ==> (#[trigger] packages[i]).index == i
}

/// The positions of all `n` packages, in their order.
pub open spec fn all_positions(n: nat) -> Seq<u64> {
    Seq::new(n, |i: int| i as u64)
}

/// The packages that commands start from: all of them, or the one that the
/// arguments name.
pub open spec fn chosen_roots(packages: Seq<Package>, wanted: Option<PackageName>) -> Option<Seq<u64>> {
    match wanted {
        None => Some(all_positions(packages.len())),
        Some(name) => match position_of(packages, name@) {
            Some(i) => Some(seq![i as u64]),
            None => None,
        },
    }
}

impl Workspace {
    /// The positions of the packages in the order in which they are shown.
    pub open spec fn spec_display_order(&self) -> Seq<PackageIndex> {
        self.package_display_order@
    }

    /// The workspace is consistent: each package stands at the position that
    /// is its index; the graph holds every package with its declared
    /// dependencies on members; the roots are packages; the times are
    /// recorded once per key; and the packages are shown in display order.
    pub open spec fn wf(&self) -> bool {
        &&& self.packages@.len() <= u64::MAX
        &&& forall|i: int| 0 <= i < self.packages@.len() ==> (#[trigger] self.packages@[i]).index == i
        &&& self.pkg_graph.wf()
        &&& forall|x: u64| #[trigger] self.pkg_graph.has_node(x) <==> x < self.packages@.len()
        &&& forall|x: u64| #[trigger] self.pkg_graph.has_node(x) ==> self.pkg_graph.deps(x) == package_deps(self.packages@)(x)
        &&& forall|k: int| 0 <= k < self.roots@.len() ==> #[trigger] self.roots@[k] < self.packages@.len()
        &&& self.fingerprints.wf()
        &&& is_display_order(self.pkg_graph, package_names(self.packages@), self.spec_display_order())
    }

    /// Makes a workspace of the packages that were found below `root`.
    pub fn load(
        root: String,
        monorepo: bool,
        packages: Vec<Package>,
        global_config: GlobalConfig,
        common: CommonArgs,
        fingerprints: Fingerprints,
    ) -> (r: Result<Workspace, WorkspaceError>)
        requires
            fingerprints.wf(),
        ensures
            match r {
                Ok(ws) => {
                    &&& ws.wf()
                    &&& ws.root == root
                    &&& ws.monorepo == monorepo
                    &&& ws.packages == packages
                    &&& ws.global_config == global_config
                    &&& ws.common == common
                    &&& ws.fingerprints == fingerprints
                    &&& chosen_roots(packages@, common.package) == Some(ws.roots@)
                    &&& well_placed(packages@)
                    &&& forall|x: u64| x < packages@.len() ==> !#[trigger] self::dep_graph::depends(package_deps(packages@), x, x)
                    &&& !self::dep_graph::exceeds_capacity(package_deps(packages@), all_positions(packages@.len()))
                },
                Err(WorkspaceError::MisplacedPackage { position }) => {
                    &&& position < packages@.len()
                    &&& packages@[position as int].index != position
                    &&& forall|i: int| 0 <= i < position ==> (#[trigger] packages@[i]).index == i
                },
                Err(WorkspaceError::PackageNotFound { name }) => {
                    &&& well_placed(packages@)
                    &&& common.package is Some
                    &&& position_of(packages@, common.package->0@) is None
                    &&& name@ == self::package::name_text(common.package->0@)
                },
                Err(WorkspaceError::Graph(GraphError::CycleDetected { node, name })) => {
                    &&& well_placed(packages@)
                    &&& chosen_roots(packages@, common.package) is Some
                    &&& !self::dep_graph::exceeds_capacity(package_deps(packages@), all_positions(packages@.len()))
                    &&& node < packages@.len()
                    &&& self::dep_graph::depends(package_deps(packages@), node, node)
                    &&& name@ == self::package::name_text(packages@[node as int].name@)
                },
                Err(WorkspaceError::Graph(GraphError::TooLarge)) => {
                    &&& well_placed(packages@)
                    &&& chosen_roots(packages@, common.package) is Some
                    &&& self::dep_graph::exceeds_capacity(package_deps(packages@), all_positions(packages@.len()))
                },
                Err(_) => false,
            },
    {
        let n = packages.len();
        let mut i: usize = 0;
        let mut all: Vec<u64> = Vec::new();
        while i < n
            invariant
                i <= n,
                n == packages@.len(),
                forall|k: int| 0 <= k < i ==> (#[trigger] packages@[k]).index == k,
                all@ == all_positions(i as nat),
            decreases n - i,
        {
            if packages[i].index != i {
                return Err(WorkspaceError::MisplacedPackage { position: i });
            }
            all.push(i as u64);
            proof {
                assert(all@ =~= all_positions((i + 1) as nat));
            }
            i += 1;
        }
        let roots = match &common.package {
            None => {
                let mut roots: Vec<u64> = Vec::new();
                let mut k: usize = 0;
                while k < n
                    invariant
                        k <= n,
                        roots@ == all_positions(k as nat),
                    decreases n - k,
                {
                    roots.push(k as u64);
                    proof {
                        assert(roots@ =~= all_positions((k + 1) as nat));
                    }
                    k += 1;
                }
                roots
            },
            Some(name) => match find_package(&packages, name) {
                Some(at) => {
                    let mut roots: Vec<u64> = Vec::new();
                    roots.push(at as u64);
                    proof {
                        assert(roots@ =~= seq![at as u64]);
                    }
                    roots
                },
                None => {
                    return Err(WorkspaceError::PackageNotFound { name: name.to_string() });
                },
            },
        };
        let ghost every = all@;
        let pkg_graph = match build_package_graph(&packages, all) {
            Ok(graph) => graph,
            Err(e) => {
                proof {
                    if e is CycleDetected {
                        lemma_reachable_is_package(packages@, every, e->node);
                    }
                }
                return Err(WorkspaceError::Graph(e));
            },
        };
        proof {
            assert forall|x: u64| #[trigger] pkg_graph.has_node(x) <==> x < packages@.len() by {
                if pkg_graph.has_node(x) {
                    lemma_reachable_is_package(packages@, every, x);
                }
                if x < packages@.len() {
                    assert(every[x as int] == x);
                    assert(self::dep_graph::label_walk(package_deps(packages@), seq![x], x, x));
                    assert(self::dep_graph::leads_to(package_deps(packages@), every[x as int], x));
                }
            }
        }
        proof {
            assert forall|x: u64|
                x < packages@.len() implies
                !#[trigger] self::dep_graph::depends(package_deps(packages@), x, x) by {
                assert(pkg_graph.has_node(x));
            }
        }
        let package_display_order = display_order(&packages, &pkg_graph);
        Ok(
            Workspace {
                root,
                packages,
                monorepo,
                global_config,
                pkg_graph,
                common,
                roots,
                fingerprints,
                package_display_order,
            },
        )
    }

    /// The packages in the order in which they are shown.
    pub fn package_display_order(&self) -> (r: Vec<&Package>)
        requires
            self.wf(),
        ensures
            r@.len() == self.packages@.len(),
            forall|k: int| 0 <= k < r@.len() ==> *(#[trigger] r@[k]) == self.packages@[self.spec_display_order()[k] as int],
    {
        let mut out: Vec<&Package> = Vec::new();
        let mut k: usize = 0;
        while k < self.package_display_order.len()
            invariant
                k <= self.package_display_order@.len(),
                self.wf(),
                out@.len() == k,
                forall|m: int| 0 <= m < k ==> *(#[trigger] out@[m]) == self.packages@[self.package_display_order@[m] as int],
            decreases self.package_display_order.len() - k,
        {
            let at = self.package_display_order[k];
            proof {
                assert(self.spec_display_order()[k as int] < self.packages@.len());
            }
            out.push(&self.packages[at]);
            k += 1;
        }
        out
    }

    /// The positions of the packages in the order in which they are shown.
    pub fn display_positions(&self) -> (r: &Vec<PackageIndex>)
        ensures
            r@ == self.spec_display_order(),
    {
        &self.package_display_order
    }

    /// The first package that is called `name`.
    pub fn find_package_by_name(&self, name: &PackageName) -> (r: Result<&Package, WorkspaceError>)
        ensures
            match r {
                Ok(pkg) => position_of(self.packages@, name@) is Some && *pkg == self.packages@[position_of(self.packages@, name@)->0],
                Err(e) => {
                    &&& position_of(self.packages@, name@) is None
                    &&& e matches WorkspaceError::PackageNotFound { name: n }
                    &&& n@ == self::package::name_text(name@)
                },
            },
    {
        match find_package(&self.packages, name) {
            Some(at) => Ok(&self.packages[at]),
            None => Err(WorkspaceError::PackageNotFound { name: name.to_string() }),
        }
    }

    /// What is known of the program `script` when it is started: its name
    /// and an empty log. The program can be started only if its executable,
    /// which `script_path` names, exists.
    pub fn start_process(&self, script: &str, executable_exists: bool) -> (r: Result<Process, WorkspaceError>)
        ensures
            match r {
                Ok(process) => {
                    &&& executable_exists
                    &&& process.wf()
                    &&& process.spec_script() == script@
                    &&& process.spec_logs().len() == 0
                    &&& !process.spec_finished()
                    &&& process.capacity() == DEFAULT_MAX_CAPACITY
                },
                Err(e) => {
                    &&& !executable_exists
                    &&& e matches WorkspaceError::MissingExecutable { path }
                    &&& path@ == (if script@ == "pnpm"@ {
                        self.global_config.spec_pnpm_path()
                    } else {
                        joined(joined(joined(self.root@, "node_modules"@), ".bin"@), script@)
                    })
                },
            },
    {
        if !executable_exists {
            return Err(WorkspaceError::MissingExecutable { path: self.script_path(script) });
        }
        Ok(Process::new(String::from_str(script)))
    }

    /// The executable that runs `script`: the package manager of the shared
    /// tool chain for `pnpm`, and for every other name the file of that name
    /// among the executables installed in the workspace.
    pub fn script_path(&self, script: &str) -> (r: String)
        ensures
            r@ == (if script@ == "pnpm"@ {
                self.global_config.spec_pnpm_path()
            } else {
                joined(joined(joined(self.root@, "node_modules"@), ".bin"@), script@)
            }),
    {
        if str_eq(script, "pnpm") {
            String::from_str(self.global_config.pnpm_path())
        } else {
            let modules = path_join(self.root.as_str(), "node_modules");
            let bin = path_join(modules.as_str(), ".bin");
            path_join(bin.as_str(), script)
        }
    }
}

/// Whatever the packages reach through their declared dependencies is a package.
proof fn lemma_reachable_is_package(packages: Seq<Package>, roots: Seq<u64>, x: u64)
    requires
        self::dep_graph::reachable_from(package_deps(packages), roots, x),
        forall|k: int| 0 <= k < roots.len() ==> #[trigger] roots[k] < packages.len(),
    ensures
        x < packages.len(),
{
    let k = choose|k: int| 0 <= k < roots.len() && self::dep_graph::leads_to(package_deps(packages), #[trigger] roots[k], x);
    let p = choose|p: Seq<u64>| self::dep_graph::label_walk(package_deps(packages), p, roots[k], x);
    lemma_walk_stays_in_packages(packages, p, roots[k], x);
}

proof fn lemma_walk_stays_in_packages(packages: Seq<Package>, p: Seq<u64>, a: u64, x: u64)
    requires
        self::dep_graph::label_walk(package_deps(packages), p, a, x),
        a < packages.len(),
    ensures
        x < packages.len(),
    decreases p.len(),
{
    if p.len() > 1 {
        let rest = p.drop_last();
        let z = rest.last();
        let d = package_deps(packages);
        assert forall|i: int| 0 <= i < rest.len() - 1 implies d(#[trigger] rest[i]).contains(rest[i + 1]) by {
            assert(rest[i] == p[i]);
            assert(rest[i + 1] == p[i + 1]);
        }
        lemma_walk_stays_in_packages(packages, rest, a, z);
        let n = p.len() - 2;
        assert(p[n] == z);
        assert(d(p[n]).contains(p[n + 1]));
        self::package::lemma_resolved_in_range(packages, self::package::parsed_names(packages[z as int].manifest.listed()));
    }
}

/// No package is shown after a package that it depends on, and a package
/// that nothing shown at or after a place depends on does not come before the
/// package at that place by name.
pub proof fn lemma_display_order_is_topological(ws: Workspace, a: int, b: int)
    requires
        ws.wf(),
        0 <= a < b < ws.spec_display_order().len(),
    ensures
        !ws.pkg_graph.depends_on(ws.spec_display_order()[b] as u64, ws.spec_display_order()[a] as u64),
        free_after(ws.pkg_graph, ws.packages@.len(), ws.spec_display_order().take(a), ws.spec_display_order()[b]) ==> name_le(
            ws.packages@[ws.spec_display_order()[a] as int].name@,
            ws.packages@[ws.spec_display_order()[b] as int].name@,
        ),
{
    let order = ws.spec_display_order();
    assert(order[b] < ws.packages@.len());
    assert(!order.take(a).contains(order[b])) by {
        if order.take(a).contains(order[b]) {
            let k = choose|k: int| 0 <= k < order.take(a).len() && order.take(a)[k] == order[b];
            assert(order[k] == order[b]);
        }
    }
}

/// Where no package depends on another, the packages are shown in the order
/// of their names.
pub proof fn lemma_display_order_by_name(ws: Workspace, a: int, b: int)
    requires
        ws.wf(),
        0 <= a < b < ws.spec_display_order().len(),
        forall|x: u64, y: u64| !ws.pkg_graph.depends_on(x, y),
    ensures
        name_le(
            ws.packages@[ws.spec_display_order()[a] as int].name@,
            ws.packages@[ws.spec_display_order()[b] as int].name@,
        ),
{
    lemma_display_order_is_topological(ws, a, b);
}

/// What is said to the user of an error with a workspace.
pub open spec fn workspace_error_text(e: WorkspaceError) -> Seq<char> {
    match e {
        WorkspaceError::RootNotFound { cwd } => "Could not find workspace root in working dir: "@ + cwd@,
        WorkspaceError::OutsideCeiling { cwd, ceiling } => "Max ancestor `"@ + ceiling@ + "` is not a prefix of cwd `"@ + cwd@ + "`"@,
        WorkspaceError::PackageNotFound { name } => "Could not find package with name: "@ + name@,
        WorkspaceError::MisplacedPackage { position } => "A package does not stand at the position of its index"@,
        WorkspaceError::Graph(e) => self::dep_graph::graph_error_text(e),
        WorkspaceError::MissingExecutable { path } => "Executable is missing: "@ + path@,
    }
}

impl WorkspaceError {
    /// What is said to the user.
    pub fn to_string(&self) -> (r: String)
        ensures
            r@ == workspace_error_text(*self),
    {
        match self {
            WorkspaceError::RootNotFound { cwd } => String::from_str("Could not find workspace root in working dir: ").concat(
                cwd.as_str(),
            ),
            WorkspaceError::OutsideCeiling { cwd, ceiling } => {
                let mut out = String::from_str("Max ancestor `");
                out.append(ceiling.as_str());
                out.append("` is not a prefix of cwd `");
                out.append(cwd.as_str());
                out.append("`");
                out
            },
            WorkspaceError::PackageNotFound { name } => String::from_str("Could not find package with name: ").concat(name.as_str()),
            WorkspaceError::MisplacedPackage { position } => String::from_str("A package does not stand at the position of its index"),
            WorkspaceError::Graph(e) => e.to_string(),
            WorkspaceError::MissingExecutable { path } => String::from_str("Executable is missing: ").concat(path.as_str()),
        }
    }
}

} // verus!
