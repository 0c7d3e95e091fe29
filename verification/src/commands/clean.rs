//! Removing what was built and installed.

use super::Action;
use crate::paths::{joined, path_join};
use crate::workspace::command::{Command, CommandRuntime, CommandScope, CoreCommand, WorkspaceCommand};
use crate::workspace::package::texts;
use vstd::prelude::*;
use vstd::string::StringExecFns;

verus! {

/// Remove auto-generated files
#[derive(Clone, PartialEq, Eq, Debug)]
pub struct CleanArgs {}

/// Removes what was built and installed.
pub struct CleanCommand {
    args: CleanArgs,
}

/// The directories to remove for the packages at `roots`: for each the
/// directory of its installed modules and that of its outputs.
pub open spec fn package_outputs(roots: Seq<Seq<char>>) -> Seq<Seq<char>>
    decreases roots.len(),
{
    if roots.len() == 0 {
        Seq::empty()
    } else {
        package_outputs(roots.drop_last()).push(joined(roots.last(), "node_modules"@)).push(joined(roots.last(), "dist"@))
    }
}

impl CleanCommand {
    /// The arguments the command was made with.
    pub closed spec fn spec_args(&self) -> CleanArgs {
        self.args
    }

    /// The command with these arguments.
    pub fn new(args: CleanArgs) -> (r: Self)
        ensures
            r.spec_args() == args,
    {
        CleanCommand { args }
    }

    /// The command as the workspace's runner takes it.
    pub fn kind(self) -> (r: Command)
        ensures
            r.scope is Workspace,
            r.name@ == "clean"@,
            r.deps@.len() == 0,
            r.runtime is WaitForDependencies,
            r.action == Action::Clean(self.spec_args()),
    {
        Command::from_parts(
            CommandScope::Workspace,
            String::from_str("clean"),
            Vec::new(),
            CommandRuntime::WaitForDependencies,
            Action::Clean(self.args),
        )
    }

    /// The directories to remove: the installed modules of the workspace at
    /// `ws_root`, then for each package its installed modules and its outputs.
    pub fn to_delete(ws_root: &str, pkg_roots: &Vec<String>) -> (r: Vec<String>)
        ensures
            texts(r@) == seq![joined(ws_root@, "node_modules"@)] + package_outputs(texts(pkg_roots@)),
    {
        let mut out: Vec<String> = Vec::new();
        out.push(path_join(ws_root, "node_modules"));
        let ghost first = seq![joined(ws_root@, "node_modules"@)];
        let ghost roots = texts(pkg_roots@);
        proof {
            assert(texts(out@) =~= first + package_outputs(roots.take(0)));
        }
        let mut i: usize = 0;
        while i < pkg_roots.len()
            invariant
                i <= pkg_roots.len(),
                roots == texts(pkg_roots@),
                texts(out@) == first + package_outputs(roots.take(i as int)),
            decreases pkg_roots.len() - i,
        {
            let ghost prev = texts(out@);
            let modules = path_join(pkg_roots[i].as_str(), "node_modules");
            let dist = path_join(pkg_roots[i].as_str(), "dist");
            out.push(modules);
            out.push(dist);
            proof {
                assert(roots.take(i + 1).drop_last() =~= roots.take(i as int));
                assert(roots.take(i + 1).last() == pkg_roots@[i as int]@);
                assert(texts(out@)
                    =~= prev.push(joined(roots[i as int], "node_modules"@)).push(joined(roots[i as int], "dist"@)));
                assert(texts(out@) =~= first + package_outputs(roots.take(i + 1)));
            }
            i += 1;
        }
        proof {
            assert(roots.take(pkg_roots@.len() as int) =~= roots);
        }
        out
    }
}

impl CoreCommand for CleanCommand {
    fn name(&self) -> (r: String)
        ensures
            r@ == "clean"@,
    {
        String::from_str("clean")
    }

    fn action(&self) -> (r: Action)
        ensures
            r == Action::Clean(self.spec_args()),
    {
        Action::Clean(CleanArgs {  })
    }
}

impl WorkspaceCommand for CleanCommand {

}

} // verus!
