//! Commands as descriptions of work: a name, a scope, a lifetime, and the
//! commands that have to be run first; and the graph of the commands that one
//! command brings with it.

use super::dep_graph::{
    depends, exceeds_capacity, label_walk, leads_to, source_deps, DepGraph, GraphError, TableSource,
};
use crate::commands::Action;
use vstd::prelude::*;

verus! {

/// How long a command runs.
#[derive(Copy, Clone, PartialEq, Eq, Debug)]
pub enum CommandRuntime {
    /// The command ends by itself, and what depends on it waits for that.
    WaitForDependencies,
    /// The command watches for changes until it is stopped.
    RunForever,
}

/// What a command is run for.
#[derive(Copy, Clone, PartialEq, Eq, Debug)]
pub enum CommandScope {
    /// Once for each package.
    Package,
    /// Once for the workspace.
    Workspace,
    /// For each package and for the workspace.
    Both,
}

/// A command: what it is called, what it is run for, how long it runs, what
/// has to be run before it, and what it does.
pub struct Command {
    pub scope: CommandScope,
    pub name: String,
    pub deps: Vec<Command>,
    pub runtime: CommandRuntime,
    pub action: Action,
}

/// What every command has: a name, which stands in the keys of its tasks,
/// and something that it does.
pub trait CoreCommand {
    fn name(&self) -> String;

    fn action(&self) -> Action;
}

/// A command that can be run for a package.
pub trait PackageCommand: CoreCommand {
    /// The commands that have to be run before this one.
    fn deps(&self) -> Vec<Command>;

    fn runtime(&self) -> CommandRuntime;
}

/// A command that can be run for the workspace as a whole.
pub trait WorkspaceCommand: CoreCommand {

}

/// A command that can be run for each package and for the workspace.
pub trait WorkspaceAndPackageCommand: WorkspaceCommand + PackageCommand {

}

impl Command {
    /// The command with these parts.
    pub fn from_parts(scope: CommandScope, name: String, deps: Vec<Command>, runtime: CommandRuntime, action: Action) -> (r:
        Command)
        ensures
            r.scope == scope,
            r.name == name,
            r.deps == deps,
            r.runtime == runtime,
            r.action == action,
    {
        Command { scope, name, deps, runtime, action }
    }

    /// A command that is run once for each package; its name, what it waits
    /// for, how long it runs and what it does are what `cmd` says of itself.
    pub fn package<C: PackageCommand>(cmd: &C) -> (r: Command)
        ensures
            r.scope is Package,
            call_ensures(<C as CoreCommand>::name, (cmd,), r.name),
            call_ensures(<C as PackageCommand>::deps, (cmd,), r.deps),
            call_ensures(<C as PackageCommand>::runtime, (cmd,), r.runtime),
            call_ensures(<C as CoreCommand>::action, (cmd,), r.action),
    {
        Command::from_parts(CommandScope::Package, cmd.name(), cmd.deps(), cmd.runtime(), cmd.action())
    }

    /// A command that is run once for the workspace; its name and what it
    /// does are what `cmd` says of itself. It waits for nothing, and what
    /// depends on it waits for it.
    pub fn workspace<C: WorkspaceCommand>(cmd: &C) -> (r: Command)
        ensures
            r.scope is Workspace,
            r.deps@.len() == 0,
            r.runtime is WaitForDependencies,
            call_ensures(<C as CoreCommand>::name, (cmd,), r.name),
            call_ensures(<C as CoreCommand>::action, (cmd,), r.action),
    {
        Command::from_parts(CommandScope::Workspace, cmd.name(), Vec::new(), CommandRuntime::WaitForDependencies, cmd.action())
    }

    /// A command that is run for each package and for the workspace; its
    /// name, what it waits for, how long it runs and what it does are what
    /// `cmd` says of itself.
    pub fn both<C: WorkspaceAndPackageCommand>(cmd: &C) -> (r: Command)
        ensures
            r.scope is Both,
            call_ensures(<C as CoreCommand>::name, (cmd,), r.name),
            call_ensures(<C as PackageCommand>::deps, (cmd,), r.deps),
            call_ensures(<C as PackageCommand>::runtime, (cmd,), r.runtime),
            call_ensures(<C as CoreCommand>::action, (cmd,), r.action),
    {
        Command::from_parts(CommandScope::Both, cmd.name(), cmd.deps(), cmd.runtime(), cmd.action())
    }

    /// The name of the command.
    pub fn name(&self) -> (r: String)
        ensures
            r@ == self.name@,
    {
        self.name.clone()
    }

    /// The commands that have to be run before this one.
    pub fn deps(&self) -> (r: &Vec<Command>)
        ensures
            r == &self.deps,
    {
        &self.deps
    }

    /// How long the command runs, for a command that is run for packages;
    /// nothing for a command of the workspace alone.
    pub fn runtime(&self) -> (r: Option<CommandRuntime>)
        ensures
            r == (if self.scope is Workspace {
                None
            } else {
                Some(self.runtime)
            }),
    {
        match self.scope {
            CommandScope::Workspace => None,
            _ => Some(self.runtime),
        }
    }

    /// Whether the command is run for each package.
    pub fn for_packages(&self) -> (r: bool)
        ensures
            r == (self.scope is Package || self.scope is Both),
    {
        matches!(self.scope, CommandScope::Package | CommandScope::Both)
    }

    /// Whether the command is run for the workspace.
    pub fn for_workspace(&self) -> (r: bool)
        ensures
            r == (self.scope is Workspace || self.scope is Both),
    {
        matches!(self.scope, CommandScope::Workspace | CommandScope::Both)
    }
}

/// The row of the command `i` is complete: it names, in their order, the
/// places of the commands that `i` has to wait for, all of them after `i`.
pub open spec fn row_complete(commands: Seq<&Command>, table: Seq<Vec<u64>>, i: int) -> bool {
    &&& table[i]@.len() == commands[i].deps@.len()
    &&& forall|k: int|
        0 <= k < table[i]@.len() ==> {
            &&& i < (#[trigger] table[i]@[k]) < commands.len()
            &&& *commands[table[i]@[k] as int] == commands[i].deps@[k]
        }
}

/// Every command after `from`, up to `to`, is named in the row of a command
/// that stands before it and not before `from`.
pub open spec fn all_named(table: Seq<Vec<u64>>, from: int, to: int) -> bool {
    forall|j: int| from < j < to ==> #[trigger] named_before(table, from, j)
}

/// The place `j` is named in the row of a place before it and not before `from`.
pub open spec fn named_before(table: Seq<Vec<u64>>, from: int, j: int) -> bool {
    exists|i: int| from <= i < j && (#[trigger] table[i])@.contains(j as u64)
}

/// The number of commands that `cmd` brings with it, itself included: each
/// command that it has to wait for is counted with all that it brings, as
/// often as it is named.
pub open spec fn command_count(cmd: Command) -> nat
    decreases cmd, 1nat, 0nat,
{
    1 + count_of_first(cmd, cmd.deps@.len())
}

/// The number of commands that the first `k` commands that `cmd` has to
/// wait for bring with them.
pub open spec fn count_of_first(cmd: Command, k: nat) -> nat
    decreases cmd, 0nat, k,
{
    if k == 0 || k > cmd.deps@.len() {
        0
    } else {
        count_of_first(cmd, (k - 1) as nat) + command_count(cmd.deps@[k - 1])
    }
}

/// The places of the commands that `cmd` has to wait for, where `cmd` itself
/// stands at the place `at`: each stands behind all that the ones before it
/// bring with them.
pub open spec fn own_row(cmd: Command, at: nat) -> Seq<u64> {
    Seq::new(cmd.deps@.len(), |k: int| (at + 1 + count_of_first(cmd, k as nat)) as u64)
}

/// The rows of the commands that `cmd` brings with it, where `cmd` stands at
/// the place `at`: its own row, and then the rows of each command that it has
/// to wait for, each followed by the rows of its own.
pub open spec fn command_rows(cmd: Command, at: nat) -> Seq<Seq<u64>>
    decreases cmd, 1nat, 0nat,
{
    seq![own_row(cmd, at)] + rows_of_first(cmd, at, cmd.deps@.len())
}

/// The rows of what the first `k` commands that `cmd` has to wait for bring
/// with them, where `cmd` stands at the place `at`.
pub open spec fn rows_of_first(cmd: Command, at: nat, k: nat) -> Seq<Seq<u64>>
    decreases cmd, 0nat, k,
{
    if k == 0 || k > cmd.deps@.len() {
        Seq::empty()
    } else {
        rows_of_first(cmd, at, (k - 1) as nat) + command_rows(
            cmd.deps@[k - 1],
            at + 1 + count_of_first(cmd, (k - 1) as nat),
        )
    }
}

/// The rows of a table as plain data.
pub open spec fn rows_view(table: Seq<Vec<u64>>) -> Seq<Seq<u64>> {
    table.map_values(|row: Vec<u64>| row@)
}

/// The dependencies that a table gives: those of the label `i` stand in the
/// row `i`, and a label beyond the table has none.
pub open spec fn table_deps(rows: Seq<Seq<u64>>) -> spec_fn(u64) -> Seq<u64> {
    |x: u64|
        if x < rows.len() {
            rows[x as int]
        } else {
            Seq::empty()
        }
}

/// The dependencies between the commands that `root` brings with it, each
/// known by its place; the root stands at the place 0.
pub open spec fn command_deps(root: Command) -> spec_fn(u64) -> Seq<u64> {
    table_deps(command_rows(root, 0))
}

/// Writes down `cmd`, and after it the commands it has to wait for, each
/// followed by its own.
fn collect<'a>(cmd: &'a Command, out: &mut Vec<&'a Command>, table: &mut Vec<Vec<u64>>)
    requires
        old(out)@.len() == old(table)@.len(),
    ensures
        final(out)@.len() == final(table)@.len(),
        final(out)@.len() > old(out)@.len(),
        final(out)@.take(old(out)@.len() as int) == old(out)@,
        final(table)@.take(old(table)@.len() as int) == old(table)@,
        *final(out)@[old(out)@.len() as int] == *cmd,
        forall|i: int| old(out)@.len() <= i < final(out)@.len() ==> row_complete(final(out)@, final(table)@, i),
        all_named(final(table)@, old(out)@.len() as int, final(out)@.len() as int),
        final(out)@.len() == old(out)@.len() + command_count(*cmd),
        rows_view(final(table)@) == rows_view(old(table)@) + command_rows(*cmd, old(out)@.len() as nat),
    decreases cmd,
{
    let id = out.len();
    let ghost out0 = out@;
    let ghost table0 = table@;
    out.push(cmd);
    table.push(Vec::new());
    let mut row: Vec<u64> = Vec::new();
    let mut k: usize = 0;
    proof {
        assert(rows_view(table@) =~= rows_view(table0).push(Seq::empty()) + rows_of_first(*cmd, id as nat, 0));
    }
    while k < cmd.deps.len()
        invariant
            k <= cmd.deps@.len(),
            out@.len() == id + 1 + count_of_first(*cmd, k as nat),
            rows_view(table@) == rows_view(table0).push(Seq::empty()) + rows_of_first(*cmd, id as nat, k as nat),
            forall|m: int| 0 <= m < k ==> (#[trigger] row@[m]) == id + 1 + count_of_first(*cmd, m as nat),
            id == out0.len(),
            id == table0.len(),
            out@.len() == table@.len(),
            out@.len() > id,
            out@.take(id as int) == out0,
            table@.take(id as int) == table0,
            *out@[id as int] == *cmd,
            row@.len() == k,
            forall|m: int| 0 <= m < k ==> id < (#[trigger] row@[m]) < out@.len() && *out@[row@[m] as int] == cmd.deps@[m],
            forall|i: int| id < i < out@.len() ==> row_complete(out@, table@, i),
            forall|j: int| id < j < out@.len() ==> row@.contains(j as u64) || #[trigger] named_before(table@, id + 1, j),
        decreases cmd.deps@.len() - k,
    {
        let child = out.len();
        let ghost out1 = out@;
        let ghost table1 = table@;
        let ghost row1 = row@;
        collect(&cmd.deps[k], out, table);
        row.push(child as u64);
        proof {
            assert(count_of_first(*cmd, (k + 1) as nat) == count_of_first(*cmd, k as nat) + command_count(
                cmd.deps@[k as int],
            ));
            assert(rows_of_first(*cmd, id as nat, (k + 1) as nat) == rows_of_first(*cmd, id as nat, k as nat)
                + command_rows(cmd.deps@[k as int], (id + 1 + count_of_first(*cmd, k as nat)) as nat));
            assert(rows_view(table@) =~= rows_view(table0).push(Seq::empty()) + rows_of_first(
                *cmd,
                id as nat,
                (k + 1) as nat,
            ));
            assert forall|m: int| 0 <= m < k + 1 implies (#[trigger] row@[m]) == id + 1 + count_of_first(
                *cmd,
                m as nat,
            ) by {
                if m < k {
                    assert(row@[m] == row1[m]);
                }
            }
            assert(out@.take(id as int) =~= out1.take(id as int)) by {
                assert(out@.take(child as int).take(id as int) =~= out@.take(id as int));
            }
            assert(table@.take(id as int) =~= table1.take(id as int)) by {
                assert(table@.take(child as int).take(id as int) =~= table@.take(id as int));
            }
            assert(out@[id as int] == out@.take(child as int)[id as int]);
            assert forall|m: int|
                0 <= m < k + 1 implies
                id < (#[trigger] row@[m]) < out@.len() && *out@[row@[m] as int] == cmd.deps@[m] by {
                if m < k {
                    assert(row@[m] == row1[m]);
                    assert(out@[row1[m] as int] == out@.take(child as int)[row1[m] as int]);
                }
            }
            assert forall|i: int| id < i < out@.len() implies row_complete(out@, table@, i) by {
                if i < child {
                    assert(row_complete(out1, table1, i));
                    assert(table@[i] == table@.take(child as int)[i]);
                    assert(out@[i] == out@.take(child as int)[i]);
                    assert forall|n: int| 0 <= n < table@[i]@.len() implies {
                        &&& i < (#[trigger] table@[i]@[n]) < out@.len()
                        &&& *out@[table@[i]@[n] as int] == out@[i].deps@[n]
                    } by {
                        let t = table1[i]@[n];
                        assert(out@[t as int] == out@.take(child as int)[t as int]);
                    }
                }
            }
            assert forall|j: int|
                id < j < out@.len() implies
                row@.contains(j as u64) || #[trigger] named_before(table@, id + 1, j) by {
                if j < child {
                    if row1.contains(j as u64) {
                        let m = choose|m: int| 0 <= m < row1.len() && row1[m] == j as u64;
                        assert(row@[m] == j as u64);
                    } else {
                        assert(named_before(table1, id + 1, j));
                        let i = choose|i: int| id + 1 <= i < j && (#[trigger] table1[i])@.contains(j as u64);
                        assert(table@[i] == table@.take(child as int)[i]);
                        assert(table@[i]@.contains(j as u64));
                    }
                } else if j == child {
                    assert(row@[k as int] == j as u64);
                } else {
                    assert(named_before(table@, child as int, j));
                    let i = choose|i: int| child <= i < j && (#[trigger] table@[i])@.contains(j as u64);
                    assert(id + 1 <= i);
                }
            }
        }
        k += 1;
    }
    let ghost out2 = out@;
    let ghost table2 = table@;
    table.set(id, row);
    proof {
        assert(row@ =~= own_row(*cmd, id as nat));
        assert(rows_view(table2)[id as int] == Seq::<u64>::empty());
        assert(rows_view(table@) =~= rows_view(table2).update(id as int, row@));
        assert(rows_view(table@) =~= rows_view(table0) + command_rows(*cmd, id as nat));
        assert(table@.take(id as int) =~= table2.take(id as int));
        assert forall|i: int| id <= i < out@.len() implies row_complete(out@, table@, i) by {
            if i > id {
                assert(row_complete(out2, table2, i));
                assert(table@[i] == table2[i]);
            }
        }
        assert forall|j: int| id < j < out@.len() implies #[trigger] named_before(table@, id as int, j) by {
            if row@.contains(j as u64) {
                assert(table@[id as int]@.contains(j as u64));
            } else {
                assert(named_before(table2, id + 1, j));
                let i = choose|i: int| id + 1 <= i < j && (#[trigger] table2[i])@.contains(j as u64);
                assert(table@[i] == table2[i]);
                assert(table@[i]@.contains(j as u64));
            }
        }
    }
}

/// The commands that a root command brings with it, and how they wait for
/// each other. Each command is known by its place in `commands`; the root
/// stands first.
pub struct CommandGraph<'a> {
    pub commands: Vec<&'a Command>,
    pub graph: DepGraph,
}

impl<'a> CommandGraph<'a> {
    /// The graph holds every command, the root first, and for each command
    /// the commands that it has to wait for, in their order.
    pub open spec fn wf(&self) -> bool {
        &&& self.commands@.len() >= 1
        &&& self.graph.wf()
        &&& self.graph.spec_roots() == seq![0u64]
        &&& forall|x: u64| #[trigger] self.graph.has_node(x) <==> x < self.commands@.len()
        &&& forall|i: int|
            0 <= i < self.commands@.len() ==> {
                &&& (#[trigger] self.graph.deps(i as u64)).len() == self.commands@[i].deps@.len()
                &&& forall|k: int|
                    0 <= k < self.commands@[i].deps@.len() ==> {
                        &&& i < (#[trigger] self.graph.deps(i as u64)[k]) < self.commands@.len()
                        &&& *self.commands@[self.graph.deps(i as u64)[k] as int] == self.commands@[i].deps@[k]
                    }
            }
    }

    /// The command at place `id`.
    pub fn command(&self, id: usize) -> (r: &'a Command)
        requires
            id < self.commands@.len(),
        ensures
            r == self.commands@[id as int],
    {
        self.commands[id]
    }
}

/// Along a walk through a table whose rows name later places only, places grow.
proof fn lemma_walk_grows(table: TableSource, p: Seq<u64>, a: u64, b: u64)
    requires
        label_walk(source_deps(&table), p, a, b),
        forall|i: int, k: int|
            0 <= i < table.deps@.len() && 0 <= k < table.deps@[i]@.len() ==>
                i < #[trigger] table.deps@[i]@[k] < table.deps@.len(),
        a < table.deps@.len(),
    ensures
        a <= b < table.deps@.len(),
        p.len() >= 2 ==> a < b,
    decreases p.len(),
{
    if p.len() > 1 {
        let rest = p.drop_last();
        let z = rest.last();
        let d = source_deps(&table);
        assert forall|i: int| 0 <= i < rest.len() - 1 implies d(#[trigger] rest[i]).contains(rest[i + 1]) by {
            assert(rest[i] == p[i]);
            assert(rest[i + 1] == p[i + 1]);
        }
        lemma_walk_grows(table, rest, a, z);
        let n = p.len() - 2;
        assert(p[n] == z);
        assert(d(p[n]).contains(p[n + 1]));
        let row = table.deps@[z as int]@;
        let k = choose|k: int| 0 <= k < row.len() && row[k] == b;
        assert(z < table.deps@[z as int]@[k] < table.deps@.len());
    }
}

/// In a table in which every place but the first is named by an earlier
/// place, every place is reached from the first.
proof fn lemma_all_reached(table: TableSource, j: int)
    requires
        0 <= j < table.deps@.len(),
        all_named(table.deps@, 0, table.deps@.len() as int),
        table.deps@.len() <= u64::MAX,
    ensures
        leads_to(source_deps(&table), 0, j as u64),
    decreases j,
{
    let d = source_deps(&table);
    if j == 0 {
        assert(label_walk(d, seq![0u64], 0, 0));
    } else {
        assert(named_before(table.deps@, 0, j));
        let i = choose|i: int| 0 <= i < j && (#[trigger] table.deps@[i])@.contains(j as u64);
        lemma_all_reached(table, i);
        let iu = i as u64;
        let p = choose|p: Seq<u64>| label_walk(d, p, 0, iu);
        let q = p.push(j as u64);
        assert(d(iu).contains(j as u64));
        assert forall|m: int| 0 <= m < q.len() - 1 implies d(#[trigger] q[m]).contains(q[m + 1]) by {
            if m < p.len() - 1 {
                assert(q[m] == p[m]);
                assert(q[m + 1] == p[m + 1]);
            }
        }
        assert(label_walk(d, q, 0, j as u64));
    }
}

/// The graph of the commands that `root` brings with it. It is refused
/// exactly where the commands, or what they wait for, are more than a graph
/// has indices for.
pub fn build_command_graph<'a>(root: &'a Command) -> (r: Result<CommandGraph<'a>, GraphError>)
    ensures
        match r {
            Ok(cg) => {
                &&& cg.wf()
                &&& *cg.commands@[0] == *root
                &&& cg.commands@.len() == command_count(*root)
                &&& forall|x: u64| x < cg.commands@.len() ==> cg.graph.deps(x) == #[trigger] command_deps(*root)(x)
                &&& !exceeds_capacity(command_deps(*root), seq![0u64])
            },
            Err(e) => e is TooLarge && exceeds_capacity(command_deps(*root), seq![0u64]),
        },
{
    let mut commands: Vec<&'a Command> = Vec::new();
    let mut deps: Vec<Vec<u64>> = Vec::new();
    collect(root, &mut commands, &mut deps);
    let mut names: Vec<String> = Vec::new();
    let mut i: usize = 0;
    while i < commands.len()
        invariant
            i <= commands@.len(),
            names@.len() == i,
        decreases commands.len() - i,
    {
        names.push(commands[i].name.clone());
        i += 1;
    }
    let ghost rows = deps@;
    let table = TableSource { deps, names };
    let mut roots: Vec<u64> = Vec::new();
    roots.push(0);
    proof {
        assert(roots@ =~= seq![0u64]);
        assert(rows_view(rows) =~= command_rows(*root, 0));
        assert forall|x: u64| #[trigger] source_deps(&table)(x) == command_deps(*root)(x) by {
            if x < rows.len() {
                assert(rows_view(rows)[x as int] == rows[x as int]@);
            }
        }
        assert(source_deps(&table) =~= command_deps(*root));
        assert forall|i: int, k: int|
            0 <= i < table.deps@.len() && 0 <= k < table.deps@[i]@.len() implies
            i < #[trigger] table.deps@[i]@[k] < table.deps@.len() by {
            assert(row_complete(commands@, rows, i));
        }
    }
    match DepGraph::build_from(roots, &table) {
        Ok(graph) => {
            let cg = CommandGraph { commands, graph };
            proof {
                let d = source_deps(&table);
                assert forall|x: u64| #[trigger] cg.graph.has_node(x) <==> x < cg.commands@.len() by {
                    if cg.graph.has_node(x) {
                        let k = choose|k: int| 0 <= k < roots@.len() && leads_to(d, #[trigger] roots@[k], x);
                        let p = choose|p: Seq<u64>| label_walk(d, p, roots@[k], x);
                        lemma_walk_grows(table, p, 0, x);
                    }
                    if x < cg.commands@.len() {
                        lemma_all_reached(table, x as int);
                        assert(leads_to(d, roots@[0], x));
                    }
                }
                assert forall|i: int| 0 <= i < cg.commands@.len() implies {
                    &&& (#[trigger] cg.graph.deps(i as u64)).len() == cg.commands@[i].deps@.len()
                    &&& forall|k: int|
                        0 <= k < cg.commands@[i].deps@.len() ==> {
                            &&& i < (#[trigger] cg.graph.deps(i as u64)[k]) < cg.commands@.len()
                            &&& *cg.commands@[cg.graph.deps(i as u64)[k] as int] == cg.commands@[i].deps@[k]
                        }
                } by {
                    assert(cg.graph.has_node(i as u64));
                    assert(row_complete(cg.commands@, rows, i));
                    assert(cg.graph.deps(i as u64) == rows[i]@);
                }
                assert forall|x: u64| x < cg.commands@.len() implies cg.graph.deps(x) == #[trigger] command_deps(
                    *root,
                )(x) by {
                    assert(cg.graph.has_node(x));
                    assert(source_deps(&table)(x) == command_deps(*root)(x));
                }
            }
            Ok(cg)
        },
        Err(e) => {
            proof {
                if e is CycleDetected {
                    let d = source_deps(&table);
                    let node = e->node;
                    let k = choose|k: int| 0 <= k < roots@.len() && leads_to(d, #[trigger] roots@[k], node);
                    let p = choose|p: Seq<u64>| label_walk(d, p, roots@[k], node);
                    lemma_walk_grows(table, p, 0, node);
                    let q = choose|q: Seq<u64>| label_walk(d, q, node, node) && q.len() >= 2;
                    lemma_walk_grows(table, q, node, node);
                }
            }
            Err(e)
        },
    }
}

} // verus!
