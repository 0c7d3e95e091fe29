//! Tasks: a command paired with a package or with the workspace, and the
//! graph that says which task has to finish before which.

use super::command::{Command, CommandGraph, CommandRuntime, CommandScope};
use super::dep_graph::{
    depends, exceeds_capacity, label_walk, leads_to, lemma_depends_transitive, source_deps, DepGraph, GraphError,
    TableSource,
};
use super::fingerprint::{all_at_most, Fingerprints, Timestamp};
use super::package::{name_text, NameView, Package, PackageName};
use crate::commands::Action;
use super::Workspace;
use crate::text::str_eq;
use vstd::prelude::*;
use vstd::string::StringExecFns;

verus! {

/// The key of a task: the name of its command, and after a colon `ws` for
/// the task of the workspace or `pkg(` name `)` for the task of a package.
pub open spec fn task_key(command: Seq<char>, package: Option<NameView>) -> Seq<char> {
    match package {
        Some(name) => command + ":pkg("@ + name_text(name) + ")"@,
        None => command + ":ws"@,
    }
}

/// The key of the task that runs the command called `command` for `package`,
/// or for the workspace where there is none.
pub fn task_name(command: &str, package: Option<&PackageName>) -> (r: String)
    ensures
        r@ == task_key(
            command@,
            match package {
                Some(name) => Some(name@),
                None => None,
            },
        ),
{
    let mut key = String::from_str(command);
    match package {
        Some(name) => {
            key.append(":pkg(");
            let text = name.to_string();
            key.append(text.as_str());
            key.append(")");
        },
        None => {
            key.append(":ws");
        },
    }
    key
}

/// A command to be run for one package, or for the workspace.
pub struct Task {
    pub key: String,
    /// The place of the command in the command graph.
    pub command: usize,
    /// The position of the package in the workspace; none for the task of
    /// the workspace.
    pub package: Option<usize>,
    /// Whether nothing that the task reads has changed since it last ran.
    pub can_skip: bool,
}

/// The packages that commands are run for: every root, each after the
/// packages it depends on. A package stands once for every root that reaches it.
pub open spec fn selected_upto(ws: Workspace, k: int) -> Seq<u64>
    decreases k,
{
    if k <= 0 {
        Seq::empty()
    } else {
        selected_upto(ws, k - 1) + ws.pkg_graph.spec_all_deps(ws.roots@[k - 1]).push(ws.roots@[k - 1])
    }
}

/// The packages that commands are run for.
pub open spec fn selected(ws: Workspace) -> Seq<u64> {
    selected_upto(ws, ws.roots@.len() as int)
}

/// The packages that commands are run for.
pub fn selected_packages(ws: &Workspace) -> (r: Vec<u64>)
    requires
        ws.wf(),
    ensures
        r@ == selected(*ws),
        forall|i: int| 0 <= i < r@.len() ==> #[trigger] r@[i] < ws.packages@.len(),
        forall|p: u64, d: u64| r@.contains(p) && #[trigger] ws.pkg_graph.deps(p).contains(d) ==> r@.contains(d),
{
    let mut out: Vec<u64> = Vec::new();
    let mut k: usize = 0;
    while k < ws.roots.len()
        invariant
            k <= ws.roots@.len(),
            ws.wf(),
            out@ == selected_upto(*ws, k as int),
            forall|i: int| 0 <= i < out@.len() ==> #[trigger] out@[i] < ws.packages@.len(),
            forall|p: u64, d: u64| out@.contains(p) && #[trigger] ws.pkg_graph.deps(p).contains(d) ==> out@.contains(d),
        decreases ws.roots.len() - k,
    {
        let root = ws.roots[k];
        assert(ws.pkg_graph.has_node(root));
        let deps = ws.pkg_graph.all_deps_for(&root);
        let ghost before = out@;
        let mut i: usize = 0;
        while i < deps.len()
            invariant
                i <= deps@.len(),
                out@ == before + deps@.take(i as int),
            decreases deps.len() - i,
        {
            out.push(deps[i]);
            proof {
                assert(deps@.take(i + 1) =~= deps@.take(i as int).push(deps@[i as int]));
                assert(out@ =~= before + deps@.take(i + 1));
            }
            i += 1;
        }
        out.push(root);
        proof {
            assert(deps@.take(deps@.len() as int) =~= deps@);
            assert(out@ =~= before + deps@.push(root));
            let added = deps@.push(root);
            assert forall|j: int| 0 <= j < out@.len() implies #[trigger] out@[j] < ws.packages@.len() by {
                if j >= before.len() {
                    let m = j - before.len();
                    if m < deps@.len() {
                        assert(out@[j] == deps@[m]);
                        assert(ws.pkg_graph.has_node(deps@[m]));
                    }
                }
            }
            assert forall|p: u64, d: u64|
                out@.contains(p) && #[trigger] ws.pkg_graph.deps(p).contains(d) implies
                out@.contains(d) by {
                let j = choose|j: int| 0 <= j < out@.len() && out@[j] == p;
                if j < before.len() {
                    assert(before.contains(p));
                    assert(before.contains(d));
                    let m = choose|m: int| 0 <= m < before.len() && before[m] == d;
                    assert(out@[m] == d);
                } else {
                    ws.pkg_graph.lemma_deps_are_nodes(p, d);
                    if p != root {
                        assert(added[j - before.len()] == p);
                        assert(deps@[j - before.len()] == p);
                        assert(deps@.contains(p));
                        lemma_depends_transitive(ws.pkg_graph.deps_fn(), root, p, d);
                    }
                    assert(ws.pkg_graph.depends_on(root, d));
                    assert(deps@.contains(d));
                    let m = choose|m: int| 0 <= m < deps@.len() && deps@[m] == d;
                    assert(out@[before.len() + m] == d);
                }
            }
        }
        k += 1;
    }
    out
}

/// Whether a command is run for the workspace as a whole. A command for both
/// scopes is, only where the workspace holds several packages: in a
/// workspace that is one package the command would run twice on the same
/// directory.
pub open spec fn runs_for_workspace(command: Command, monorepo: bool) -> bool {
    command.scope is Workspace || (command.scope is Both && monorepo)
}

/// Whether a command is run for packages.
pub open spec fn runs_for_packages(command: Command) -> bool {
    command.scope is Package || command.scope is Both
}

/// The keys of the tasks of `command` for the packages `chosen`, in their order.
pub open spec fn package_keys(ws: Workspace, command: Command, chosen: Seq<u64>) -> Seq<Seq<char>> {
    Seq::new(chosen.len(), |i: int| task_key(command.name@, Some(ws.packages@[chosen[i] as int].name@)))
}

/// The keys of the tasks of `command`: one for each package it is run for,
/// then one for the workspace if it is run for the workspace.
pub open spec fn keys_for(ws: Workspace, command: Command) -> Seq<Seq<char>> {
    (if runs_for_packages(command) {
        package_keys(ws, command, selected(ws))
    } else {
        Seq::empty()
    }) + (if runs_for_workspace(command, ws.monorepo) {
        seq![task_key(command.name@, None)]
    } else {
        Seq::empty()
    })
}

/// The position of the task whose key is `key`, if there is one.
pub fn find_task(tasks: &Vec<Task>, key: &str) -> (r: Option<usize>)
    ensures
        match r {
            Some(i) => i < tasks@.len() && tasks@[i as int].key@ == key@,
            None => forall|i: int| 0 <= i < tasks@.len() ==> (#[trigger] tasks@[i]).key@ != key@,
        },
{
    let mut i: usize = 0;
    while i < tasks.len()
        invariant
            i <= tasks@.len(),
            forall|k: int| 0 <= k < i ==> (#[trigger] tasks@[k]).key@ != key@,
        decreases tasks.len() - i,
    {
        if str_eq(tasks[i].key.as_str(), key) {
            return Some(i);
        }
        i += 1;
    }
    None
}

/// No two tasks share a key.
pub open spec fn distinct_tasks(tasks: Seq<Task>) -> bool {
    forall|i: int, j: int| 0 <= i < j < tasks.len() ==> (#[trigger] tasks[i]).key@ != (#[trigger] tasks[j]).key@
}

/// The task is what its key says: it names a command of the graph, and its
/// package, if it has one, is among those that commands are run for.
pub open spec fn task_ok(ws: Workspace, cg: CommandGraph, chosen: Seq<u64>, task: Task) -> bool {
    &&& task.command < cg.commands@.len()
    &&& match task.package {
        Some(p) => {
            &&& chosen.contains(p as u64)
            &&& p < ws.packages@.len()
            &&& runs_for_packages(*cg.commands@[task.command as int])
            &&& task.key@ == task_key(cg.commands@[task.command as int].name@, Some(ws.packages@[p as int].name@))
        },
        None => {
            &&& runs_for_workspace(*cg.commands@[task.command as int], ws.monorepo)
            &&& task.key@ == task_key(cg.commands@[task.command as int].name@, None)
        },
    }
}

/// The keys of the tasks that the task `task` waits for: the tasks of every
/// command that its command waits for, the command named last first; and, if
/// it is the task of a package whose command waits for its dependencies, the
/// tasks of the same command for the packages that its package depends on,
/// the one declared last first.
pub open spec fn expected_keys(ws: Workspace, cg: CommandGraph, task: Task) -> Seq<Seq<char>> {
    command_keys(ws, cg, cg.graph.deps(task.command as u64).reverse(), cg.graph.deps(task.command as u64).len() as int)
        + match task.package {
        Some(p) => if cg.commands@[task.command as int].runtime is WaitForDependencies {
            package_keys(ws, *cg.commands@[task.command as int], ws.pkg_graph.deps(p as u64).reverse())
        } else {
            Seq::empty()
        },
        None => Seq::empty(),
    }
}

/// The keys of the tasks of the first `k` of the commands `ids`.
pub open spec fn command_keys(ws: Workspace, cg: CommandGraph, ids: Seq<u64>, k: int) -> Seq<Seq<char>>
    decreases k,
{
    if k <= 0 {
        Seq::empty()
    } else {
        command_keys(ws, cg, ids, k - 1) + keys_for(ws, *cg.commands@[ids[k - 1] as int])
    }
}

/// The row `row` names, in their order, the tasks with the keys `keys`.
pub open spec fn row_names(tasks: Seq<Task>, row: Seq<u64>, keys: Seq<Seq<char>>) -> bool {
    &&& row.len() == keys.len()
    &&& forall|k: int| 0 <= k < row.len() ==> #[trigger] row[k] < tasks.len() && tasks[row[k] as int].key@ == keys[k]
}

/// The tasks of a run and which of them each waits for. A task is known by
/// its place in `tasks`; the row of the table at that place names the tasks
/// that it waits for, and its name there is its key.
pub struct TaskPlan {
    pub tasks: Vec<Task>,
    pub table: TableSource,
    /// The tasks of the root command.
    pub roots: Vec<u64>,
}

impl TaskPlan {
    /// The tasks are what their keys say, no two share a key, each waits for
    /// the tasks that `expected_keys` names for it, and the tasks of the
    /// root command are there. The tasks stand in the order of their
    /// commands; the command of each is the root or one that the command of
    /// a task waits for, and is the first such command that asks for it.
    pub open spec fn wf(&self, ws: Workspace, cg: CommandGraph) -> bool {
        &&& self.tasks@.len() == self.table.deps@.len()
        &&& self.tasks@.len() == self.table.names@.len()
        &&& self.tasks@.len() <= u64::MAX
        &&& distinct_tasks(self.tasks@)
        &&& by_command(self.tasks@)
        &&& forall|t: int| 0 <= t < self.tasks@.len() ==> wanted(cg, self.tasks@, (#[trigger] self.tasks@[t]).command as int)
        &&& first_asks(ws, cg, self.tasks@, |q: int| 0 <= q < cg.commands@.len() && wanted(cg, self.tasks@, q))
        &&& forall|t: int| 0 <= t < self.tasks@.len() ==> task_ok(ws, cg, selected(ws), #[trigger] self.tasks@[t])
        &&& forall|t: int| 0 <= t < self.tasks@.len() ==> (#[trigger] self.table.names@[t])@ == self.tasks@[t].key@
        &&& forall|t: int|
            0 <= t < self.tasks@.len() ==>
                row_names(self.tasks@, (#[trigger] self.table.deps@[t])@, expected_keys(ws, cg, self.tasks@[t]))
        &&& row_names(self.tasks@, self.roots@, keys_for(ws, *cg.commands@[0]))
    }

    /// Each task can be skipped exactly if the run is incremental, the root
    /// command does not run forever, the task has inputs, and the times
    /// recorded say that none of them changed since the task last ran.
    /// `inputs` holds for each task, where it has inputs, when each was
    /// modified, as far as that could be told.
    pub open spec fn flags_ok(
        &self,
        fingerprints: Fingerprints,
        incremental: bool,
        root_runtime: Option<CommandRuntime>,
        inputs: Seq<Option<Vec<Option<Timestamp>>>>,
    ) -> bool {
        &&& inputs.len() == self.tasks@.len()
        &&& forall|t: int|
            0 <= t < self.tasks@.len() ==> (#[trigger] self.tasks@[t]).can_skip == skippable(
                fingerprints,
                incremental,
                root_runtime,
                self.tasks@[t].key@,
                inputs[t],
            )
    }
}

/// The tasks of a run with the graph of how they wait for each other.
pub struct TaskGraph {
    pub plan: TaskPlan,
    pub graph: DepGraph,
}

impl TaskGraph {
    /// The plan is sound, and the graph holds every task with the tasks it
    /// waits for; no task waits for itself, directly or through others.
    pub open spec fn wf(&self, ws: Workspace, cg: CommandGraph) -> bool {
        &&& self.plan.wf(ws, cg)
        &&& self.graph.wf()
        &&& forall|x: u64| #[trigger] self.graph.has_node(x) <==> x < self.plan.tasks@.len()
        &&& forall|x: u64| #[trigger] self.graph.has_node(x) ==> self.graph.deps(x) == self.plan.table.deps@[x as int]@
    }
}

/// Why the tasks of a run cannot be run: the plan holds a circle of tasks
/// that wait for each other, or more tasks than a graph can hold.
pub struct TaskGraphError {
    pub cause: GraphError,
    pub plan: TaskPlan,
}

/// Whether a task with the key `key` and the inputs `inputs` can be skipped.
pub open spec fn skippable(
    fingerprints: Fingerprints,
    incremental: bool,
    root_runtime: Option<CommandRuntime>,
    key: Seq<char>,
    inputs: Option<Vec<Option<Timestamp>>>,
) -> bool {
    &&& incremental
    &&& root_runtime != Some(CommandRuntime::RunForever)
    &&& inputs is Some
    &&& fingerprints@.contains_key(key)
    &&& all_at_most(inputs->0@, fingerprints@[key])
}

/// A task that can be skipped has inputs, and none of them is known to have
/// been modified after the time that is recorded for the task.
pub proof fn lemma_skip_is_sound(
    tg: TaskPlan,
    fingerprints: Fingerprints,
    incremental: bool,
    root_runtime: Option<CommandRuntime>,
    inputs: Seq<Option<Vec<Option<Timestamp>>>>,
    t: int,
    i: int,
)
    requires
        tg.flags_ok(fingerprints, incremental, root_runtime, inputs),
        0 <= t < tg.tasks@.len(),
        tg.tasks@[t].can_skip,
        inputs[t] is Some,
        0 <= i < inputs[t]->0@.len(),
        inputs[t]->0@[i] is Some,
    ensures
        fingerprints@.contains_key(tg.tasks@[t].key@),
        inputs[t]->0@[i]->0.le(fingerprints@[tg.tasks@[t].key@]),
{
}

/// A row that names tasks goes on naming them when tasks are added.
proof fn lemma_row_names_extend(old_tasks: Seq<Task>, tasks: Seq<Task>, row: Seq<u64>, keys: Seq<Seq<char>>)
    requires
        row_names(old_tasks, row, keys),
        old_tasks.len() <= tasks.len(),
        tasks.take(old_tasks.len() as int) == old_tasks,
    ensures
        row_names(tasks, row, keys),
{
    assert forall|k: int| 0 <= k < row.len() implies #[trigger] row[k] < tasks.len() && tasks[row[k] as int].key@ == keys[k] by {
        assert(tasks.take(old_tasks.len() as int)[row[k] as int] == tasks[row[k] as int]);
    }
}

/// Two rows that name tasks, one after the other, name the tasks of both.
proof fn lemma_row_names_concat(tasks: Seq<Task>, a: Seq<u64>, ka: Seq<Seq<char>>, b: Seq<u64>, kb: Seq<Seq<char>>)
    requires
        row_names(tasks, a, ka),
        row_names(tasks, b, kb),
    ensures
        row_names(tasks, a + b, ka + kb),
{
    let row = a + b;
    assert forall|k: int|
        0 <= k < row.len() implies
        #[trigger] row[k] < tasks.len() && tasks[row[k] as int].key@ == (ka + kb)[k] by {
        if k < a.len() {
            assert(row[k] == a[k]);
        } else {
            assert(row[k] == b[k - a.len()]);
        }
    }
}

/// The keys of the tasks of `command`, each with the package it is for.
fn task_keys(ws: &Workspace, command: &Command, chosen: &Vec<u64>) -> (r: Vec<(String, Option<usize>)>)
    requires
        ws.wf(),
        chosen@ == selected(*ws),
        forall|i: int| 0 <= i < chosen@.len() ==> #[trigger] chosen@[i] < ws.packages@.len(),
    ensures
        r@.len() == keys_for(*ws, *command).len(),
        forall|k: int| 0 <= k < r@.len() ==> (#[trigger] r@[k]).0@ == keys_for(*ws, *command)[k],
        forall|k: int|
            0 <= k < r@.len() ==> match (#[trigger] r@[k]).1 {
                Some(p) => runs_for_packages(*command) && k < chosen@.len() && p == chosen@[k],
                None => runs_for_workspace(*command, ws.monorepo) && r@[k].0@ == task_key(command.name@, None),
            },
{
    let mut out: Vec<(String, Option<usize>)> = Vec::new();
    if command.for_packages() {
        let mut i: usize = 0;
        while i < chosen.len()
            invariant
                i <= chosen@.len(),
                ws.wf(),
                runs_for_packages(*command),
                forall|m: int| 0 <= m < chosen@.len() ==> #[trigger] chosen@[m] < ws.packages@.len(),
                out@.len() == i,
                forall|k: int| 0 <= k < i ==> (#[trigger] out@[k]).0@ == package_keys(*ws, *command, chosen@)[k],
                forall|k: int| 0 <= k < i ==> (#[trigger] out@[k]).1 == Some(chosen@[k] as usize),
            decreases chosen.len() - i,
        {
            let p = chosen[i] as usize;
            let key = task_name(command.name.as_str(), Some(&ws.packages[p].name));
            out.push((key, Some(p)));
            i += 1;
        }
    }
    let for_ws = match command.scope {
        CommandScope::Workspace => true,
        CommandScope::Both => ws.monorepo,
        CommandScope::Package => false,
    };
    if for_ws {
        out.push((task_name(command.name.as_str(), None), None));
    }
    proof {
        let keys = keys_for(*ws, *command);
        assert(out@.len() == keys.len());
        assert forall|k: int| 0 <= k < out@.len() implies (#[trigger] out@[k]).0@ == keys[k] by {}
    }
    out
}

/// Finds or makes the tasks of the command at place `c`; gives their places,
/// and says whether any was made.
fn tasks_for(ws: &Workspace, cg: &CommandGraph, c: usize, chosen: &Vec<u64>, tasks: &mut Vec<Task>) -> (r: (
    Vec<u64>,
    bool,
))
    requires
        ws.wf(),
        c < cg.commands@.len(),
        chosen@ == selected(*ws),
        forall|i: int| 0 <= i < chosen@.len() ==> #[trigger] chosen@[i] < ws.packages@.len(),
        distinct_tasks(old(tasks)@),
        forall|t: int| 0 <= t < old(tasks)@.len() ==> task_ok(*ws, *cg, chosen@, #[trigger] old(tasks)@[t]),
    ensures
        distinct_tasks(final(tasks)@),
        forall|t: int| 0 <= t < final(tasks)@.len() ==> task_ok(*ws, *cg, chosen@, #[trigger] final(tasks)@[t]),
        old(tasks)@.len() <= final(tasks)@.len(),
        final(tasks)@.take(old(tasks)@.len() as int) == old(tasks)@,
        forall|t: int|
            old(tasks)@.len() <= t < final(tasks)@.len() ==>
                (#[trigger] final(tasks)@[t]).command == c && !final(tasks)@[t].can_skip,
        row_names(final(tasks)@, r.0@, keys_for(*ws, *cg.commands@[c as int])),
        r.1 == (final(tasks)@.len() > old(tasks)@.len()),
{
    let command = cg.command(c);
    let keys = task_keys(ws, command, chosen);
    let ghost wanted = keys_for(*ws, *command);
    let ghost before = tasks@;
    let mut ids: Vec<u64> = Vec::new();
    let mut created = false;
    let mut k: usize = 0;
    while k < keys.len()
        invariant
            k <= keys@.len(),
            ws.wf(),
            c < cg.commands@.len(),
            command == cg.commands@[c as int],
            wanted == keys_for(*ws, *command),
            keys@.len() == wanted.len(),
            forall|m: int| 0 <= m < keys@.len() ==> (#[trigger] keys@[m]).0@ == wanted[m],
            forall|m: int|
                0 <= m < keys@.len() ==> match (#[trigger] keys@[m]).1 {
                    Some(p) => runs_for_packages(*command) && m < chosen@.len() && p == chosen@[m],
                    None => runs_for_workspace(*command, ws.monorepo) && keys@[m].0@ == task_key(command.name@, None),
                },
            chosen@ == selected(*ws),
            forall|i: int| 0 <= i < chosen@.len() ==> #[trigger] chosen@[i] < ws.packages@.len(),
            distinct_tasks(tasks@),
            forall|t: int| 0 <= t < tasks@.len() ==> task_ok(*ws, *cg, chosen@, #[trigger] tasks@[t]),
            before.len() <= tasks@.len(),
            tasks@.take(before.len() as int) == before,
            forall|t: int| before.len() <= t < tasks@.len() ==> (#[trigger] tasks@[t]).command == c && !tasks@[t].can_skip,
            row_names(tasks@, ids@, wanted.take(k as int)),
            created == (tasks@.len() > before.len()),
        decreases keys.len() - k,
    {
        let ghost tasks1 = tasks@;
        let ghost ids1 = ids@;
        let found = find_task(tasks, keys[k].0.as_str());
        let id = match found {
            Some(i) => i,
            None => {
                let package = keys[k].1;
                let key = keys[k].0.clone();
                proof {
                    match package {
                        Some(p) => {
                            assert(chosen@[k as int] == p as u64);
                            assert(chosen@.contains(p as u64));
                            assert(wanted[k as int] == package_keys(*ws, *command, chosen@)[k as int]);
                        },
                        None => {},
                    }
                }
                tasks.push(Task { key, command: c, package, can_skip: false });
                created = true;
                proof {
                    assert(tasks@.take(before.len() as int) =~= tasks1.take(before.len() as int));
                    assert forall|a: int, b: int|
                        0 <= a < b < tasks@.len() implies
                        (#[trigger] tasks@[a]).key@ != (#[trigger] tasks@[b]).key@ by {
                        assert(tasks@[a] == tasks1[a]);
                        if b < tasks1.len() {
                            assert(tasks@[b] == tasks1[b]);
                        }
                    }
                    assert forall|t: int| 0 <= t < tasks@.len() implies task_ok(*ws, *cg, chosen@, #[trigger] tasks@[t]) by {
                        if t < tasks1.len() {
                            assert(tasks@[t] == tasks1[t]);
                        }
                    }
                }
                tasks.len() - 1
            },
        };
        ids.push(id as u64);
        proof {
            assert(tasks@.take(tasks1.len() as int) =~= tasks1);
            lemma_row_names_extend(tasks1, tasks@, ids1, wanted.take(k as int));
            assert(wanted.take(k + 1) =~= wanted.take(k as int).push(wanted[k as int]));
            assert forall|m: int|
                0 <= m < ids@.len() implies
                #[trigger] ids@[m] < tasks@.len() && tasks@[ids@[m] as int].key@ == wanted.take(k + 1)[m] by {
                if m < k {
                    assert(ids@[m] == ids1[m]);
                }
            }
        }
        k += 1;
    }
    proof {
        assert(wanted.take(keys@.len() as int) =~= wanted);
    }
    (ids, created)
}

/// Along a walk through a table whose rows name places of the table, every
/// label is a place of the table.
proof fn lemma_table_walk_in_range(table: TableSource, p: Seq<u64>, a: u64, b: u64)
    requires
        label_walk(source_deps(&table), p, a, b),
        forall|i: int, k: int|
            0 <= i < table.deps@.len() && 0 <= k < table.deps@[i]@.len() ==> #[trigger] table.deps@[i]@[k] < table.deps@.len(),
        a < table.deps@.len(),
    ensures
        b < table.deps@.len(),
    decreases p.len(),
{
    if p.len() > 1 {
        let rest = p.drop_last();
        let z = rest.last();
        let d = source_deps(&table);
        assert forall|i: int| 0 <= i < rest.len() - 1 implies d(#[trigger] rest[i]).contains(rest[i + 1]) by {
            assert(rest[i] == p[i]);
            assert(rest[i + 1] == p[i + 1]);
        }
        lemma_table_walk_in_range(table, rest, a, z);
        let n = p.len() - 2;
        assert(p[n] == z);
        assert(d(p[n]).contains(p[n + 1]));
        let row = table.deps@[z as int]@;
        let k = choose|k: int| 0 <= k < row.len() && row[k] == b;
        assert(table.deps@[z as int]@[k] < table.deps@.len());
    }
}

/// The places of all `n` tasks.
pub open spec fn all_tasks(n: nat) -> Seq<u64> {
    Seq::new(n, |i: int| i as u64)
}

/// Marks the commands `kids` as planned.
fn mark_planned(planned: &mut Vec<bool>, kids: &Vec<u64>)
    requires
        forall|j: int| 0 <= j < kids@.len() ==> #[trigger] kids@[j] < old(planned)@.len(),
    ensures
        final(planned)@.len() == old(planned)@.len(),
        forall|q: usize| q < old(planned)@.len() ==> (#[trigger] final(planned)@[q as int] <==> old(planned)@[q as int] || kids@.contains(q as u64)),
{
    let ghost before = planned@;
    let mut j: usize = 0;
    while j < kids.len()
        invariant
            j <= kids@.len(),
            planned@.len() == before.len(),
            forall|m: int| 0 <= m < kids@.len() ==> #[trigger] kids@[m] < before.len(),
            forall|q: usize| q < before.len() ==> (#[trigger] planned@[q as int] <==> before[q as int] || kids@.take(j as int).contains(q as u64)),
        decreases kids.len() - j,
    {
        let ghost prev = planned@;
        planned.set(kids[j] as usize, true);
        proof {
            let shorter = kids@.take(j as int);
            let longer = kids@.take(j + 1);
            assert(longer =~= shorter.push(kids@[j as int]));
            assert forall|q: usize|
                q < before.len() implies
                (#[trigger] planned@[q as int] <==> before[q as int] || longer.contains(q as u64)) by {
                let qu = q as u64;
                if qu == kids@[j as int] {
                    assert(longer[j as int] == qu);
                } else {
                    assert(planned@[q as int] == prev[q as int]);
                    if shorter.contains(qu) {
                        let m = choose|m: int| 0 <= m < shorter.len() && shorter[m] == qu;
                        assert(longer[m] == qu);
                    }
                    if longer.contains(qu) {
                        let m = choose|m: int| 0 <= m < longer.len() && longer[m] == qu;
                        assert(shorter[m] == qu);
                    }
                }
            }
        }
        j += 1;
    }
    proof {
        assert(kids@.take(kids@.len() as int) =~= kids@);
    }
}

/// Appends the numbers of `more` to `out`.
fn append_copy(out: &mut Vec<u64>, more: &Vec<u64>)
    ensures
        final(out)@ == old(out)@ + more@,
{
    let ghost before = out@;
    let mut i: usize = 0;
    while i < more.len()
        invariant
            i <= more@.len(),
            out@ == before + more@.take(i as int),
        decreases more.len() - i,
    {
        out.push(more[i]);
        proof {
            assert(more@.take(i + 1) =~= more@.take(i as int).push(more@[i as int]));
            assert(out@ =~= before + more@.take(i + 1));
        }
        i += 1;
    }
    proof {
        assert(more@.take(more@.len() as int) =~= more@);
    }
}

/// The command at place `c` is the root, or the command of some task waits
/// for it.
pub open spec fn wanted(cg: CommandGraph, tasks: Seq<Task>, c: int) -> bool {
    c == 0 || exists|u: int| 0 <= u < tasks.len() && cg.graph.deps((#[trigger] tasks[u]).command as u64).contains(c as u64)
}

/// Each task belongs to the first of the commands in `from` that asks for
/// its key: no such command before its own does.
pub open spec fn first_asks(ws: Workspace, cg: CommandGraph, tasks: Seq<Task>, from: spec_fn(int) -> bool) -> bool {
    forall|t: int, q: int|
        0 <= t < tasks.len() && 0 <= q < tasks[t].command && from(q) ==> !#[trigger] keys_for(ws, *cg.commands@[q]).contains(
            (#[trigger] tasks[t]).key@,
        )
}

/// The tasks stand in the order of their commands.
pub open spec fn by_command(tasks: Seq<Task>) -> bool {
    forall|t: int, u: int| 0 <= t < u < tasks.len() ==> (#[trigger] tasks[t]).command <= (#[trigger] tasks[u]).command
}

/// What holds of the tasks while the commands before `c` have been gone
/// through: the tasks of every planned command among them are there, and the
/// commands that the command of a task waits for are planned.
pub open spec fn planning(
    ws: Workspace,
    cg: CommandGraph,
    tasks: Seq<Task>,
    planned: Seq<bool>,
    ids_of: Seq<Vec<u64>>,
    c: int,
) -> bool {
    &&& planned.len() == cg.commands@.len()
    &&& ids_of.len() == cg.commands@.len()
    &&& planned[0]
    &&& distinct_tasks(tasks)
    &&& by_command(tasks)
    &&& forall|q: int| 0 <= q < planned.len() && #[trigger] planned[q] ==> wanted(cg, tasks, q)
    &&& first_asks(ws, cg, tasks, |q: int| 0 <= q < planned.len() && planned[q])
    &&& forall|t: int| 0 <= t < tasks.len() ==> task_ok(ws, cg, selected(ws), #[trigger] tasks[t])
    &&& forall|q: int| 0 <= q < c && planned[q] ==> row_names(tasks, (#[trigger] ids_of[q])@, keys_for(ws, *cg.commands@[q]))
    &&& forall|t: int|
        0 <= t < tasks.len() ==> {
            &&& (#[trigger] tasks[t]).command < c
            &&& planned[tasks[t].command as int]
            &&& forall|j: int|
                0 <= j < cg.graph.deps(tasks[t].command as u64).len() ==> planned[#[trigger] cg.graph.deps(
                    tasks[t].command as u64,
                )[j] as int]
        }
}

/// Finds or makes the tasks of every planned command, in the order of the
/// commands, and plans the commands that a command with a task of its own
/// waits for.
fn plan_commands(ws: &Workspace, cg: &CommandGraph, chosen: &Vec<u64>) -> (r: (Vec<Task>, Vec<bool>, Vec<Vec<u64>>))
    requires
        ws.wf(),
        cg.wf(),
        chosen@ == selected(*ws),
        forall|m: int| 0 <= m < chosen@.len() ==> #[trigger] chosen@[m] < ws.packages@.len(),
    ensures
        planning(*ws, *cg, r.0@, r.1@, r.2@, cg.commands@.len() as int),
        forall|t: int| 0 <= t < r.0@.len() ==> !(#[trigger] r.0@[t]).can_skip,
{
    let n = cg.commands.len();
    let mut tasks: Vec<Task> = Vec::new();
    let mut planned: Vec<bool> = Vec::new();
    let mut ids_of: Vec<Vec<u64>> = Vec::new();
    let mut i: usize = 0;
    while i < n
        invariant
            i <= n,
            planned@.len() == i,
            ids_of@.len() == i,
            forall|q: int| 0 <= q < i ==> (#[trigger] planned@[q] <==> q == 0),
        decreases n - i,
    {
        planned.push(i == 0);
        ids_of.push(Vec::new());
        i += 1;
    }
    let mut c: usize = 0;
    while c < n
        invariant
            c <= n,
            n == cg.commands@.len(),
            ws.wf(),
            cg.wf(),
            chosen@ == selected(*ws),
            forall|m: int| 0 <= m < chosen@.len() ==> #[trigger] chosen@[m] < ws.packages@.len(),
            planning(*ws, *cg, tasks@, planned@, ids_of@, c as int),
            forall|t: int| 0 <= t < tasks@.len() ==> !(#[trigger] tasks@[t]).can_skip,
        decreases n - c,
    {
        if planned[c] {
            let ghost tasks1 = tasks@;
            let ghost planned1 = planned@;
            let ghost ids1 = ids_of@;
            let (ids, created) = tasks_for(ws, cg, c, chosen, &mut tasks);
            ids_of.set(c, ids);
            assert(cg.graph.has_node(c as u64));
            let kids = cg.graph.immediate_deps_for(&(c as u64));
            let ghost row = cg.graph.deps(c as u64);
            proof {
                assert forall|j: int| 0 <= j < kids@.len() implies c < #[trigger] kids@[j] < planned@.len() by {
                    assert(kids@[j] == row[row.len() - 1 - j]);
                }
            }
            if created {
                mark_planned(&mut planned, &kids);
            }
            proof {
                assert forall|q: usize| q <= c implies planned@[q as int] == planned1[q as int] by {
                    let qu = q as u64;
                    if kids@.contains(qu) {
                        let m = choose|m: int| 0 <= m < kids@.len() && kids@[m] == qu;
                        assert(c < kids@[m]);
                    }
                }
                assert forall|q: int|
                    0 <= q < c + 1 && planned@[q] implies
                    row_names(tasks@, (#[trigger] ids_of@[q])@, keys_for(*ws, *cg.commands@[q])) by {
                    assert(planned@[q as usize as int] == planned1[q as usize as int]);
                    if q < c {
                        assert(ids_of@[q] == ids1[q]);
                        lemma_row_names_extend(tasks1, tasks@, ids1[q]@, keys_for(*ws, *cg.commands@[q]));
                    }
                }
                assert forall|t: int| 0 <= t < tasks@.len() implies {
                    &&& (#[trigger] tasks@[t]).command < c + 1
                    &&& planned@[tasks@[t].command as int]
                    &&& forall|j: int|
                        0 <= j < cg.graph.deps(tasks@[t].command as u64).len() ==> planned@[#[trigger] cg.graph.deps(
                            tasks@[t].command as u64,
                        )[j] as int]
                } by {
                    if t < tasks1.len() {
                        assert(tasks@.take(tasks1.len() as int)[t] == tasks@[t]);
                        let cmd = tasks1[t].command;
                        assert(planned@[cmd as int] == planned1[cmd as int]);
                        assert forall|j: int|
                            0 <= j < cg.graph.deps(cmd as u64).len() implies
                            planned@[#[trigger] cg.graph.deps(cmd as u64)[j] as int] by {
                            let kid = cg.graph.deps(cmd as u64)[j];
                            assert(planned1[kid as int]);
                            assert(planned@[kid as usize as int] <==> planned1[kid as usize as int] || kids@.contains(kid as usize as u64)) by {
                                if !created {
                                }
                            }
                        }
                    } else {
                        assert(tasks@[t].command == c);
                        assert(created);
                        assert forall|j: int| 0 <= j < row.len() implies planned@[#[trigger] row[j] as int] by {
                            assert(kids@[row.len() - 1 - j] == row[j]);
                            assert(kids@.contains(row[j]));
                            assert(planned@[row[j] as usize as int] <==> planned1[row[j] as usize as int] || kids@.contains(row[j] as usize as u64));
                        }
                    }
                }
                assert forall|t: int| 0 <= t < tasks@.len() implies !(#[trigger] tasks@[t]).can_skip by {
                    if t < tasks1.len() {
                        assert(tasks@.take(tasks1.len() as int)[t] == tasks@[t]);
                    }
                }
                assert forall|t: int, u: int|
                    0 <= t < u < tasks@.len() implies
                    (#[trigger] tasks@[t]).command <= (#[trigger] tasks@[u]).command by {
                    if u < tasks1.len() {
                        assert(tasks@.take(tasks1.len() as int)[t] == tasks@[t]);
                        assert(tasks@.take(tasks1.len() as int)[u] == tasks@[u]);
                    } else if t < tasks1.len() {
                        assert(tasks@.take(tasks1.len() as int)[t] == tasks@[t]);
                    }
                }
                assert(first_asks(*ws, *cg, tasks@, |q: int| 0 <= q < planned@.len() && planned@[q])) by {
                    let from1 = |q: int| 0 <= q < planned1.len() && planned1[q];
                    assert forall|t: int, q: int|
                        0 <= t < tasks@.len() && 0 <= q < tasks@[t].command && 0 <= q < planned@.len() && planned@[q] implies !#[trigger] keys_for(
                        *ws,
                        *cg.commands@[q],
                    ).contains((#[trigger] tasks@[t]).key@) by {
                        assert(planned@[q as usize as int] == planned1[q as usize as int]);
                        if t < tasks1.len() {
                            assert(tasks@.take(tasks1.len() as int)[t] == tasks@[t]);
                            assert(from1(q));
                            assert(!keys_for(*ws, *cg.commands@[q]).contains(tasks1[t].key@));
                        } else {
                            let keys = keys_for(*ws, *cg.commands@[q]);
                            if keys.contains(tasks@[t].key@) {
                                let k = choose|k: int| 0 <= k < keys.len() && keys[k] == tasks@[t].key@;
                                assert(row_names(tasks1, ids1[q]@, keys));
                                let holder = ids1[q]@[k] as int;
                                assert(tasks1[holder].key@ == keys[k]);
                                assert(tasks@.take(tasks1.len() as int)[holder] == tasks@[holder]);
                                assert(tasks@[holder].key@ != tasks@[t].key@);
                            }
                        }
                    }
                }
                assert forall|q: int| 0 <= q < planned@.len() && #[trigger] planned@[q] implies wanted(*cg, tasks@, q) by {
                    if planned1[q] {
                        assert(wanted(*cg, tasks1, q));
                        if q != 0 {
                            let u = choose|u: int|
                                0 <= u < tasks1.len() && cg.graph.deps((#[trigger] tasks1[u]).command as u64).contains(q as u64);
                            assert(tasks@.take(tasks1.len() as int)[u] == tasks@[u]);
                        }
                    } else {
                        assert(planned@[q as usize as int] <==> planned1[q as usize as int] || kids@.contains(q as usize as u64));
                        assert(created);
                        let m = choose|m: int| 0 <= m < kids@.len() && kids@[m] == q as u64;
                        assert(row[row.len() - 1 - m] == q as u64);
                        let u = tasks@.len() - 1;
                        assert(tasks@[u].command == c);
                    }
                }
            }
        }
        c += 1;
    }
    (tasks, planned, ids_of)
}

/// The places of the tasks that the task at place `t` waits for.
fn task_row(
    ws: &Workspace,
    cg: &CommandGraph,
    chosen: &Vec<u64>,
    tasks: &Vec<Task>,
    planned: &Vec<bool>,
    ids_of: &Vec<Vec<u64>>,
    t: usize,
) -> (row: Vec<u64>)
    requires
        ws.wf(),
        cg.wf(),
        chosen@ == selected(*ws),
        forall|p: u64, d: u64| chosen@.contains(p) && #[trigger] ws.pkg_graph.deps(p).contains(d) ==> chosen@.contains(d),
        planning(*ws, *cg, tasks@, planned@, ids_of@, cg.commands@.len() as int),
        t < tasks@.len(),
    ensures
        row_names(tasks@, row@, expected_keys(*ws, *cg, tasks@[t as int])),
{
    let task = &tasks[t];
    let cmd_id = task.command;
    let command = cg.command(cmd_id);
    assert(task_ok(*ws, *cg, selected(*ws), tasks@[t as int]));
    assert(cg.graph.has_node(cmd_id as u64));
    let kids = cg.graph.immediate_deps_for(&(cmd_id as u64));
    let ghost waits = cg.graph.deps(cmd_id as u64);
    let mut row: Vec<u64> = Vec::new();
    let mut j: usize = 0;
    while j < kids.len()
        invariant
            j <= kids@.len(),
            kids@ == waits.reverse(),
            waits == cg.graph.deps(cmd_id as u64),
            cmd_id == tasks@[t as int].command,
            t < tasks@.len(),
            cg.wf(),
            planning(*ws, *cg, tasks@, planned@, ids_of@, cg.commands@.len() as int),
            row_names(tasks@, row@, command_keys(*ws, *cg, kids@, j as int)),
        decreases kids.len() - j,
    {
        let child = kids[j] as usize;
        proof {
            let back = waits.len() - 1 - j;
            assert(kids@[j as int] == waits[back]);
            assert(cmd_id < waits[back] < cg.commands@.len());
            assert(cg.commands@.len() == cg.commands.len());
            assert(child as int == waits[back] as int);
            assert(planned@[waits[back] as int]);
            assert(planned@[child as int]);
            assert(0 <= child as int && (child as int) < cg.commands@.len() as int);
            assert(row_names(tasks@, ids_of@[child as int]@, keys_for(*ws, *cg.commands@[child as int])));
            lemma_row_names_concat(
                tasks@,
                row@,
                command_keys(*ws, *cg, kids@, j as int),
                ids_of@[child as int]@,
                keys_for(*ws, *cg.commands@[child as int]),
            );
        }
        append_copy(&mut row, &ids_of[child]);
        j += 1;
    }
    let mut own: Vec<u64> = Vec::new();
    let ghost own_keys = match task.package {
        Some(p) => if command.runtime is WaitForDependencies {
            package_keys(*ws, *command, ws.pkg_graph.deps(p as u64).reverse())
        } else {
            Seq::empty()
        },
        None => Seq::empty(),
    };
    match task.package {
        Some(p) => {
            if matches!(command.runtime, CommandRuntime::WaitForDependencies) {
                assert(ws.pkg_graph.has_node(p as u64));
                let needs = ws.pkg_graph.immediate_deps_for(&(p as u64));
                let ghost declared = ws.pkg_graph.deps(p as u64);
                let mut m: usize = 0;
                while m < needs.len()
                    invariant
                        m <= needs@.len(),
                        needs@ == declared.reverse(),
                        declared == ws.pkg_graph.deps(p as u64),
                        forall|i: int| 0 <= i < needs@.len() ==> ws.pkg_graph.has_node(#[trigger] needs@[i]),
                        ws.wf(),
                        cg.wf(),
                        t < tasks@.len(),
                        cmd_id == tasks@[t as int].command,
                        command == cg.commands@[cmd_id as int],
                        tasks@[t as int].package == Some(p),
                        chosen@ == selected(*ws),
                        forall|a: u64, d: u64|
                            chosen@.contains(a) && #[trigger] ws.pkg_graph.deps(a).contains(d) ==> chosen@.contains(d),
                        planning(*ws, *cg, tasks@, planned@, ids_of@, cg.commands@.len() as int),
                        row_names(tasks@, own@, package_keys(*ws, *command, needs@).take(m as int)),
                    decreases needs.len() - m,
                {
                    let q = needs[m] as usize;
                    assert(ws.pkg_graph.has_node(needs@[m as int]));
                    let key = task_name(command.name.as_str(), Some(&ws.packages[q].name));
                    let id = match find_task(tasks, key.as_str()) {
                        Some(id) => id,
                        None => {
                            proof {
                                assert(task_ok(*ws, *cg, selected(*ws), tasks@[t as int]));
                                assert(needs@[m as int] == declared[declared.len() - 1 - m]);
                                assert(declared.contains(needs@[m as int]));
                                assert(chosen@.contains(needs@[m as int]));
                                let at = choose|at: int| 0 <= at < chosen@.len() && chosen@[at] == needs@[m as int];
                                let keys = keys_for(*ws, *command);
                                assert(keys[at] == package_keys(*ws, *command, chosen@)[at]);
                                assert(keys[at] == key@);
                                assert(planned@[cmd_id as int]);
                                assert(row_names(tasks@, ids_of@[cmd_id as int]@, keys));
                                let holder = ids_of@[cmd_id as int]@[at];
                                assert(tasks@[holder as int].key@ == key@);
                                assert(false);
                            }
                            0
                        },
                    };
                    let ghost prev = own@;
                    own.push(id as u64);
                    proof {
                        let keys = package_keys(*ws, *command, needs@);
                        assert(keys.take(m + 1) =~= keys.take(m as int).push(keys[m as int]));
                        assert forall|k: int|
                            0 <= k < own@.len() implies
                            #[trigger] own@[k] < tasks@.len() && tasks@[own@[k] as int].key@ == keys.take(m + 1)[k] by {
                            if k < m {
                                assert(own@[k] == prev[k]);
                            }
                        }
                    }
                    m += 1;
                }
                proof {
                    let keys = package_keys(*ws, *command, needs@);
                    assert(keys.take(needs@.len() as int) =~= keys);
                }
            }
        },
        None => {},
    }
    proof {
        lemma_row_names_concat(tasks@, row@, command_keys(*ws, *cg, kids@, kids@.len() as int), own@, own_keys);
    }
    append_copy(&mut row, &own);
    row
}

/// Plans the tasks that the commands of `cg` bring for the workspace: for
/// the root command its tasks, and for every command that made a task of its
/// own the tasks of the commands it waits for. Tasks are shared by key.
/// Whether a task can be skipped is not decided here: each is marked as one
/// that cannot be, until `TaskPlan::set_flags` decides from the times of the
/// inputs, as `build_task_graph` does.
pub fn plan_tasks(ws: &Workspace, cg: &CommandGraph) -> (plan: TaskPlan)
    requires
        ws.wf(),
        cg.wf(),
    ensures
        plan.wf(*ws, *cg),
        forall|t: int| 0 <= t < plan.tasks@.len() ==> !(#[trigger] plan.tasks@[t]).can_skip,
{
    let chosen = selected_packages(ws);
    let (tasks, planned, ids_of) = plan_commands(ws, cg, &chosen);
    let mut deps: Vec<Vec<u64>> = Vec::new();
    let mut names: Vec<String> = Vec::new();
    let mut t: usize = 0;
    while t < tasks.len()
        invariant
            t <= tasks@.len(),
            ws.wf(),
            cg.wf(),
            chosen@ == selected(*ws),
            forall|p: u64, d: u64| chosen@.contains(p) && #[trigger] ws.pkg_graph.deps(p).contains(d) ==> chosen@.contains(d),
            planning(*ws, *cg, tasks@, planned@, ids_of@, cg.commands@.len() as int),
            deps@.len() == t,
            names@.len() == t,
            forall|k: int| 0 <= k < t ==> (#[trigger] names@[k])@ == tasks@[k].key@,
            forall|k: int| 0 <= k < t ==> row_names(tasks@, (#[trigger] deps@[k])@, expected_keys(*ws, *cg, tasks@[k])),
        decreases tasks.len() - t,
    {
        let row = task_row(ws, cg, &chosen, &tasks, &planned, &ids_of, t);
        deps.push(row);
        names.push(tasks[t].key.clone());
        t += 1;
    }
    let mut roots: Vec<u64> = Vec::new();
    append_copy(&mut roots, &ids_of[0]);
    proof {
        assert(roots@ =~= ids_of@[0]@);
    }
    TaskPlan { tasks, table: TableSource { deps, names }, roots }
}

/// The tasks of a run and the graph of how they wait for each other, before
/// it is decided which of them can be skipped; an error where tasks wait for
/// each other in a circle.
fn wire_tasks(ws: &Workspace, cg: &CommandGraph) -> (r: Result<TaskGraph, TaskGraphError>)
    requires
        ws.wf(),
        cg.wf(),
    ensures
        match r {
            Ok(tg) => {
                &&& tg.wf(*ws, *cg)
                &&& forall|t: int| 0 <= t < tg.plan.tasks@.len() ==> !(#[trigger] tg.plan.tasks@[t]).can_skip
                &&& forall|x: u64| x < tg.plan.tasks@.len() ==> !#[trigger] depends(source_deps(&tg.plan.table), x, x)
                &&& !exceeds_capacity(source_deps(&tg.plan.table), all_tasks(tg.plan.tasks@.len()))
            },
            Err(e) => {
                &&& e.plan.wf(*ws, *cg)
                &&& match e.cause {
                    GraphError::CycleDetected { node, name } => {
                        &&& !exceeds_capacity(source_deps(&e.plan.table), all_tasks(e.plan.tasks@.len()))
                        &&& node < e.plan.tasks@.len()
                        &&& depends(source_deps(&e.plan.table), node, node)
                        &&& name@ == e.plan.tasks@[node as int].key@
                    },
                    GraphError::TooLarge => exceeds_capacity(source_deps(&e.plan.table), all_tasks(e.plan.tasks@.len())),
                }
            },
        },
{
    let plan = plan_tasks(ws, cg);
    let n = plan.tasks.len();
    let mut every: Vec<u64> = Vec::new();
    let mut i: usize = 0;
    while i < n
        invariant
            i <= n,
            every@ == all_tasks(i as nat),
        decreases n - i,
    {
        every.push(i as u64);
        proof {
            assert(every@ =~= all_tasks((i + 1) as nat));
        }
        i += 1;
    }
    let ghost d = source_deps(&plan.table);
    proof {
        assert forall|a: int, k: int|
            0 <= a < plan.table.deps@.len() && 0 <= k < plan.table.deps@[a]@.len() implies
            #[trigger] plan.table.deps@[a]@[k] < plan.table.deps@.len() by {
            assert(row_names(plan.tasks@, plan.table.deps@[a]@, expected_keys(*ws, *cg, plan.tasks@[a])));
        }
    }
    match DepGraph::build_from(every, &plan.table) {
        Ok(graph) => {
            proof {
                assert forall|x: u64| #[trigger] graph.has_node(x) <==> x < plan.tasks@.len() by {
                    if graph.has_node(x) {
                        let k = choose|k: int| 0 <= k < every@.len() && leads_to(d, #[trigger] every@[k], x);
                        let p = choose|p: Seq<u64>| label_walk(d, p, every@[k], x);
                        lemma_table_walk_in_range(plan.table, p, every@[k], x);
                    }
                    if x < plan.tasks@.len() {
                        assert(every@[x as int] == x);
                        assert(label_walk(d, seq![x], x, x));
                        assert(leads_to(d, every@[x as int], x));
                    }
                }
                assert forall|x: u64| x < plan.tasks@.len() implies !#[trigger] depends(d, x, x) by {
                    assert(graph.has_node(x));
                }
            }
            Ok(TaskGraph { plan, graph })
        },
        Err(cause) => {
            proof {
                if cause is CycleDetected {
                    let node = cause->node;
                    let k = choose|k: int| 0 <= k < every@.len() && leads_to(d, #[trigger] every@[k], node);
                    let p = choose|p: Seq<u64>| label_walk(d, p, every@[k], node);
                    lemma_table_walk_in_range(plan.table, p, every@[k], node);
                }
            }
            Err(TaskGraphError { cause, plan })
        },
    }
}

/// Where the inputs of a task are to be found.
#[derive(Copy, Clone, PartialEq, Eq, Debug)]
pub enum InputSource {
    /// The files of the source directory of the package at this position.
    PackageFiles { package: usize },
    /// The manifests of the packages and of the workspace, provided that
    /// each of them has its modules installed.
    Manifests,
    /// The task has no inputs, and cannot be skipped.
    Nothing,
}

/// Where the inputs of a task are to be found whose command does `action`:
/// for the task of the package at `package` among the package's sources;
/// for the task that initializes the workspace among the manifests; and for
/// any other task of the workspace nowhere.
pub open spec fn source_of(package: Option<usize>, action: Action) -> InputSource {
    match package {
        Some(p) => InputSource::PackageFiles { package: p },
        None => if action is Init {
            InputSource::Manifests
        } else {
            InputSource::Nothing
        },
    }
}

impl Task {
    /// Where the inputs of the task are to be found, given what its command
    /// does: for the task of a package among the package's sources; for the
    /// task that initializes the workspace among the manifests; and for any
    /// other task of the workspace nowhere.
    pub fn input_source(&self, action: &Action) -> (r: InputSource)
        ensures
            r == source_of(self.package, *action),
    {
        match self.package {
            Some(p) => InputSource::PackageFiles { package: p },
            None => match action {
                Action::Init(_) => InputSource::Manifests,
                _ => InputSource::Nothing,
            },
        }
    }
}

impl TaskPlan {
    /// Decides for every task whether it can be skipped. `inputs` holds for
    /// each task, where it has inputs, when each was modified, as far as
    /// that could be told. The tasks stay as they are otherwise.
    pub fn set_flags(
        &mut self,
        fingerprints: &Fingerprints,
        incremental: bool,
        root_runtime: Option<CommandRuntime>,
        inputs: &Vec<Option<Vec<Option<Timestamp>>>>,
    )
        requires
            fingerprints.wf(),
            inputs@.len() == old(self).tasks@.len(),
        ensures
            final(self).flags_ok(*fingerprints, incremental, root_runtime, inputs@),
            final(self).table == old(self).table,
            final(self).roots == old(self).roots,
            final(self).tasks@.len() == old(self).tasks@.len(),
            forall|t: int|
                0 <= t < final(self).tasks@.len() ==> {
                    &&& (#[trigger] final(self).tasks@[t]).key@ == old(self).tasks@[t].key@
                    &&& final(self).tasks@[t].command == old(self).tasks@[t].command
                    &&& final(self).tasks@[t].package == old(self).tasks@[t].package
                },
    {
        let live = incremental && !matches!(root_runtime, Some(CommandRuntime::RunForever));
        let mut out: Vec<Task> = Vec::new();
        let mut t: usize = 0;
        while t < self.tasks.len()
            invariant
                t <= self.tasks@.len(),
                self == old(self),
                fingerprints.wf(),
                inputs@.len() == self.tasks@.len(),
                live == (incremental && root_runtime != Some(CommandRuntime::RunForever)),
                out@.len() == t,
                forall|k: int|
                    0 <= k < t ==> {
                        &&& (#[trigger] out@[k]).key@ == self.tasks@[k].key@
                        &&& out@[k].command == self.tasks@[k].command
                        &&& out@[k].package == self.tasks@[k].package
                        &&& out@[k].can_skip == skippable(*fingerprints, incremental, root_runtime, self.tasks@[k].key@, inputs@[k])
                    },
            decreases self.tasks.len() - t,
        {
            let task = &self.tasks[t];
            let can_skip = live && match &inputs[t] {
                Some(mtimes) => fingerprints.can_skip(task.key.as_str(), mtimes),
                None => false,
            };
            out.push(Task { key: task.key.clone(), command: task.command, package: task.package, can_skip });
            t += 1;
        }
        self.tasks = out;
    }
}

/// Deciding which tasks can be skipped leaves a plan sound.
pub proof fn lemma_flags_keep_plan(before: TaskPlan, after: TaskPlan, ws: Workspace, cg: CommandGraph)
    requires
        before.wf(ws, cg),
        after.table == before.table,
        after.roots == before.roots,
        after.tasks@.len() == before.tasks@.len(),
        forall|t: int|
            0 <= t < after.tasks@.len() ==> {
                &&& (#[trigger] after.tasks@[t]).key@ == before.tasks@[t].key@
                &&& after.tasks@[t].command == before.tasks@[t].command
                &&& after.tasks@[t].package == before.tasks@[t].package
            },
    ensures
        after.wf(ws, cg),
{
    assert forall|t: int| 0 <= t < after.tasks@.len() implies task_ok(ws, cg, selected(ws), #[trigger] after.tasks@[t]) by {
        assert(task_ok(ws, cg, selected(ws), before.tasks@[t]));
    }
    assert forall|t: int|
        0 <= t < after.tasks@.len() implies
        row_names(after.tasks@, (#[trigger] after.table.deps@[t])@, expected_keys(ws, cg, after.tasks@[t])) by {
        assert(row_names(before.tasks@, before.table.deps@[t]@, expected_keys(ws, cg, before.tasks@[t])));
        assert(expected_keys(ws, cg, after.tasks@[t]) == expected_keys(ws, cg, before.tasks@[t]));
        let row = after.table.deps@[t]@;
        assert forall|k: int|
            0 <= k < row.len() implies
            #[trigger] row[k] < after.tasks@.len() && after.tasks@[row[k] as int].key@ == expected_keys(ws, cg, after.tasks@[t])[k] by {
            assert(before.tasks@[row[k] as int].key@ == expected_keys(ws, cg, before.tasks@[t])[k]);
        }
    }
    assert(row_names(after.tasks@, after.roots@, keys_for(ws, *cg.commands@[0]))) by {
        assert(row_names(before.tasks@, before.roots@, keys_for(ws, *cg.commands@[0])));
        assert forall|k: int|
            0 <= k < after.roots@.len() implies
            #[trigger] after.roots@[k] < after.tasks@.len() && after.tasks@[after.roots@[k] as int].key@ == keys_for(ws, *cg.commands@[0])[k] by {
            assert(before.tasks@[before.roots@[k] as int].key@ == keys_for(ws, *cg.commands@[0])[k]);
        }
    }
    assert forall|i: int, j: int|
        0 <= i < j < after.tasks@.len() implies
        (#[trigger] after.tasks@[i]).key@ != (#[trigger] after.tasks@[j]).key@ by {
        assert(before.tasks@[i].key@ != before.tasks@[j].key@);
    }
    assert forall|i: int, j: int|
        0 <= i < j < after.tasks@.len() implies
        (#[trigger] after.tasks@[i]).command <= (#[trigger] after.tasks@[j]).command by {
        assert(before.tasks@[i].command <= before.tasks@[j].command);
    }
    assert forall|t: int|
        0 <= t < after.tasks@.len() implies
        wanted(cg, after.tasks@, (#[trigger] after.tasks@[t]).command as int) by {
        let c = before.tasks@[t].command as int;
        assert(wanted(cg, before.tasks@, c));
        if c != 0 {
            let u = choose|u: int|
                0 <= u < before.tasks@.len() && cg.graph.deps((#[trigger] before.tasks@[u]).command as u64).contains(c as u64);
            assert(after.tasks@[u].command == before.tasks@[u].command);
        }
    }
}

/// When the inputs of the tasks of a run were modified, as far as that could
/// be told.
pub struct InputTimes {
    /// For the package at each position, the times of the files among its sources.
    pub packages: Vec<Vec<Option<Timestamp>>>,
    /// The times of the manifests of the packages and of the workspace, where
    /// each of them has its modules installed; nothing otherwise.
    pub manifests: Option<Vec<Option<Timestamp>>>,
}

/// When the inputs that are found at `source` were modified; nothing where
/// there are no inputs, or none are known.
pub open spec fn times_at(times: InputTimes, source: InputSource) -> Option<Seq<Option<Timestamp>>> {
    match source {
        InputSource::PackageFiles { package } => if package < times.packages@.len() {
            Some(times.packages@[package as int]@)
        } else {
            None
        },
        InputSource::Manifests => match times.manifests {
            Some(list) => Some(list@),
            None => None,
        },
        InputSource::Nothing => None,
    }
}

/// When the inputs of `task` were modified.
pub open spec fn task_times(cg: CommandGraph, times: InputTimes, task: Task) -> Option<Seq<Option<Timestamp>>> {
    if task.command < cg.commands@.len() {
        times_at(times, source_of(task.package, cg.commands@[task.command as int].action))
    } else {
        None
    }
}

/// How long the root command runs, for a command that is run for packages.
pub open spec fn root_runtime(cg: CommandGraph) -> Option<CommandRuntime> {
    if cg.commands@[0].scope is Workspace {
        None
    } else {
        Some(cg.commands@[0].runtime)
    }
}

/// Whether a task with the key `key` can be skipped whose inputs were
/// modified at `inputs`: the run is incremental, the root command does not
/// run forever, the task has inputs, a time is recorded for it, and no input
/// is known to have been modified after that time.
pub open spec fn skippable_at(
    fingerprints: Fingerprints,
    incremental: bool,
    root_runtime: Option<CommandRuntime>,
    key: Seq<char>,
    inputs: Option<Seq<Option<Timestamp>>>,
) -> bool {
    &&& incremental
    &&& root_runtime != Some(CommandRuntime::RunForever)
    &&& inputs is Some
    &&& fingerprints@.contains_key(key)
    &&& all_at_most(inputs->0, fingerprints@[key])
}

/// A copy of a list of times.
fn copy_times(list: &Vec<Option<Timestamp>>) -> (r: Vec<Option<Timestamp>>)
    ensures
        r@ == list@,
{
    let mut out: Vec<Option<Timestamp>> = Vec::new();
    let mut i: usize = 0;
    while i < list.len()
        invariant
            i <= list@.len(),
            out@ == list@.take(i as int),
        decreases list@.len() - i,
    {
        out.push(list[i]);
        proof {
            assert(list@.take(i + 1) =~= list@.take(i as int).push(list@[i as int]));
        }
        i += 1;
    }
    proof {
        assert(list@.take(list@.len() as int) =~= list@);
    }
    out
}

/// The tasks of a run and the graph of how they wait for each other, with
/// the decision for each task whether it can be skipped, taken from the
/// times recorded in the workspace and the times `times` of the inputs; an
/// error where tasks wait for each other in a circle.
pub fn build_task_graph(ws: &Workspace, cg: &CommandGraph, times: &InputTimes) -> (r: Result<
    TaskGraph,
    TaskGraphError,
>)
    requires
        ws.wf(),
        cg.wf(),
    ensures
        match r {
            Ok(tg) => {
                &&& tg.wf(*ws, *cg)
                &&& forall|t: int|
                    0 <= t < tg.plan.tasks@.len() ==> (#[trigger] tg.plan.tasks@[t]).can_skip == skippable_at(
                        ws.fingerprints,
                        ws.common.incremental,
                        root_runtime(*cg),
                        tg.plan.tasks@[t].key@,
                        task_times(*cg, *times, tg.plan.tasks@[t]),
                    )
                &&& forall|x: u64| x < tg.plan.tasks@.len() ==> !#[trigger] depends(source_deps(&tg.plan.table), x, x)
                &&& !exceeds_capacity(source_deps(&tg.plan.table), all_tasks(tg.plan.tasks@.len()))
            },
            Err(e) => {
                &&& e.plan.wf(*ws, *cg)
                &&& match e.cause {
                    GraphError::CycleDetected { node, name } => {
                        &&& !exceeds_capacity(source_deps(&e.plan.table), all_tasks(e.plan.tasks@.len()))
                        &&& node < e.plan.tasks@.len()
                        &&& depends(source_deps(&e.plan.table), node, node)
                        &&& name@ == e.plan.tasks@[node as int].key@
                    },
                    GraphError::TooLarge => exceeds_capacity(source_deps(&e.plan.table), all_tasks(e.plan.tasks@.len())),
                }
            },
        },
{
    match wire_tasks(ws, cg) {
        Err(e) => Err(e),
        Ok(tg) => {
            let ghost before = tg.plan;
            let mut plan = tg.plan;
            let graph = tg.graph;
            let mut inputs: Vec<Option<Vec<Option<Timestamp>>>> = Vec::new();
            let mut t: usize = 0;
            while t < plan.tasks.len()
                invariant
                    t <= plan.tasks@.len(),
                    inputs@.len() == t,
                    forall|k: int|
                        0 <= k < t ==> (match #[trigger] inputs@[k] {
                            Some(list) => Some(list@),
                            None => None,
                        }) == task_times(*cg, *times, plan.tasks@[k]),
                decreases plan.tasks@.len() - t,
            {
                let task = &plan.tasks[t];
                let source = if task.command < cg.commands.len() {
                    task.input_source(&cg.command(task.command).action)
                } else {
                    InputSource::Nothing
                };
                let item = match source {
                    InputSource::PackageFiles { package } => if package < times.packages.len() {
                        Some(copy_times(&times.packages[package]))
                    } else {
                        None
                    },
                    InputSource::Manifests => match &times.manifests {
                        Some(list) => Some(copy_times(list)),
                        None => None,
                    },
                    InputSource::Nothing => None,
                };
                inputs.push(item);
                t += 1;
            }
            plan.set_flags(&ws.fingerprints, ws.common.incremental, cg.command(0).runtime(), &inputs);
            proof {
                lemma_flags_keep_plan(before, plan, *ws, *cg);
            }
            Ok(TaskGraph { plan, graph })
        },
    }
}

/// Within a command that waits for its dependencies, the task of a package
/// waits for the task of the same command for each package that its package
/// depends on: `k` is a place in the row of the task `t` that names the task
/// for the package `d`.
pub open spec fn waits_for_package(plan: TaskPlan, ws: Workspace, cg: CommandGraph, t: int, d: u64, k: int) -> bool {
    &&& 0 <= k < plan.table.deps@[t]@.len()
    &&& plan.table.deps@[t]@[k] < plan.tasks@.len()
    &&& plan.tasks@[plan.table.deps@[t]@[k] as int].key@ == task_key(
        cg.commands@[plan.tasks@[t].command as int].name@,
        Some(ws.packages@[d as int].name@),
    )
}

/// In a plan, the task of a package whose command waits for its
/// dependencies waits for the task of the same command for every package
/// that its package depends on.
pub proof fn lemma_waits_for_package_dependencies(plan: TaskPlan, ws: Workspace, cg: CommandGraph, t: int, d: u64)
    requires
        plan.wf(ws, cg),
        0 <= t < plan.tasks@.len(),
        plan.tasks@[t].package is Some,
        cg.commands@[plan.tasks@[t].command as int].runtime is WaitForDependencies,
        ws.pkg_graph.deps(plan.tasks@[t].package->0 as u64).contains(d),
    ensures
        exists|k: int| waits_for_package(plan, ws, cg, t, d, k),
{
    let task = plan.tasks@[t];
    let p = task.package->0;
    let command = *cg.commands@[task.command as int];
    let ids = cg.graph.deps(task.command as u64);
    let first = command_keys(ws, cg, ids.reverse(), ids.len() as int);
    let deps = ws.pkg_graph.deps(p as u64);
    let second = package_keys(ws, command, deps.reverse());
    let row = plan.table.deps@[t]@;
    assert(row_names(plan.tasks@, row, expected_keys(ws, cg, task)));
    assert(expected_keys(ws, cg, task) == first + second);
    let j = choose|j: int| 0 <= j < deps.len() && deps[j] == d;
    let m = deps.len() - 1 - j;
    assert(deps.reverse()[m] == d);
    let k = first.len() + m;
    assert((first + second)[k] == second[m]);
    assert(second[m] == task_key(command.name@, Some(ws.packages@[d as int].name@)));
    assert(row[k] < plan.tasks@.len());
    assert(waits_for_package(plan, ws, cg, t, d, k));
}

} // verus!
