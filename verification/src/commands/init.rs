//! Installing what the packages of a workspace depend on.

use super::shell::{extra_words, push_text, push_texts, split_extra, CommandError, Invocation};
use super::Action;
use crate::paths::{joined, path_join};
use crate::text::copy_option;
use crate::workspace::command::{Command, CommandRuntime, CommandScope, CoreCommand, WorkspaceCommand};
use crate::workspace::package::texts;
use vstd::prelude::*;
use vstd::string::StringExecFns;

verus! {

/// Initialize a workspace
#[derive(Clone, PartialEq, Eq, Debug)]
pub struct InitArgs {
    /// If true, then don't attempt to download packages from the web
    pub offline: bool,
    /// Additional arguments to pass to pnpm
    pub pnpm_args: Option<String>,
}

impl Default for InitArgs {
    fn default() -> (r: Self)
        ensures
            !r.offline,
            r.pnpm_args is None,
    {
        InitArgs { offline: false, pnpm_args: None }
    }
}

/// Installs what the packages of the workspace depend on.
pub struct InitCommand {
    args: InitArgs,
}

/// The arguments that tell the package manager what to do: to install, and
/// to stay off the network if it is told so.
pub open spec fn install_mode(offline: bool) -> Seq<Seq<char>> {
    if offline {
        seq!["install"@, "--offline"@]
    } else {
        seq!["install"@]
    }
}

/// The manifest of each of the directories `roots`.
pub open spec fn manifests(roots: Seq<Seq<char>>) -> Seq<Seq<char>> {
    roots.map_values(|root: Seq<char>| joined(root, "package.json"@))
}

/// `c` is the command that installs with the usual choices: it is run once
/// for the workspace, on the network, with no arguments of its own, and
/// nothing has to be run before it.
pub open spec fn is_default_init(c: Command) -> bool {
    &&& c.scope is Workspace
    &&& c.name@ == "init"@
    &&& c.deps@.len() == 0
    &&& c.runtime is WaitForDependencies
    &&& c.action == Action::Init(InitArgs { offline: false, pnpm_args: None })
}

impl InitCommand {
    /// The arguments the command was made with.
    pub closed spec fn spec_args(&self) -> InitArgs {
        self.args
    }

    /// The command with these arguments.
    pub fn new(args: InitArgs) -> (r: Self)
        ensures
            r.spec_args() == args,
    {
        InitCommand { args }
    }

    /// The command as the workspace's runner takes it.
    pub fn kind(self) -> (r: Command)
        ensures
            r.scope is Workspace,
            r.name@ == "init"@,
            r.deps@.len() == 0,
            r.runtime is WaitForDependencies,
            r.action == Action::Init(self.spec_args()),
    {
        Command::from_parts(
            CommandScope::Workspace,
            String::from_str("init"),
            Vec::new(),
            CommandRuntime::WaitForDependencies,
            Action::Init(self.args),
        )
    }

    /// The program that installs the dependencies of the workspace.
    pub fn run_ws(args: &InitArgs) -> (r: Result<Invocation, CommandError>)
        ensures
            match r {
                Ok(inv) => {
                    &&& extra_words(args.pnpm_args) is Some
                    &&& texts(inv.args@) == install_mode(args.offline) + extra_words(args.pnpm_args)->0
                    &&& inv.script@ == "pnpm"@
                    &&& inv.env@.len() == 0
                    &&& inv.must_succeed
                },
                Err(e) => {
                    &&& extra_words(args.pnpm_args) is None
                    &&& e matches CommandError::BadArguments { tool }
                    &&& tool@ == "pnpm"@
                },
            },
    {
        let extra = match split_extra(&args.pnpm_args, "pnpm") {
            Ok(words) => words,
            Err(e) => {
                return Err(e);
            },
        };
        let mut words: Vec<String> = Vec::new();
        push_text(&mut words, "install");
        if args.offline {
            push_text(&mut words, "--offline");
        }
        proof {
            assert(texts(words@) =~= install_mode(args.offline));
        }
        push_texts(&mut words, &extra);
        Ok(Invocation { script: String::from_str("pnpm"), args: words, env: Vec::new(), must_succeed: true })
    }

    /// The files that tell whether the workspace has to be initialized
    /// again: the manifest of every package and of the workspace, given in
    /// `roots` by their directories, provided that every one of them has its
    /// modules installed already, which `installed` tells of each.
    pub fn input_files(roots: &Vec<String>, installed: &Vec<bool>) -> (r: Option<Vec<String>>)
        requires
            roots@.len() == installed@.len(),
        ensures
            match r {
                Some(files) => (forall|i: int| 0 <= i < installed@.len() ==> installed@[i]) && texts(files@) == manifests(texts(roots@)),
                None => exists|i: int| 0 <= i < installed@.len() && !installed@[i],
            },
    {
        let mut i: usize = 0;
        while i < installed.len()
            invariant
                i <= installed@.len(),
                forall|k: int| 0 <= k < i ==> installed@[k],
            decreases installed.len() - i,
        {
            if !installed[i] {
                return None;
            }
            i += 1;
        }
        let mut files: Vec<String> = Vec::new();
        let mut k: usize = 0;
        while k < roots.len()
            invariant
                k <= roots@.len(),
                files@.len() == k,
                forall|m: int| 0 <= m < k ==> (#[trigger] files@[m])@ == joined(roots@[m]@, "package.json"@),
            decreases roots.len() - k,
        {
            files.push(path_join(roots[k].as_str(), "package.json"));
            k += 1;
        }
        proof {
            assert(texts(files@) =~= manifests(texts(roots@)));
        }
        Some(files)
    }
}

impl CoreCommand for InitCommand {
    fn name(&self) -> (r: String)
        ensures
            r@ == "init"@,
    {
        String::from_str("init")
    }

    fn action(&self) -> (r: Action)
        ensures
            r == Action::Init(self.spec_args()),
    {
        Action::Init(InitArgs { offline: self.args.offline, pnpm_args: copy_option(&self.args.pnpm_args) })
    }
}

impl WorkspaceCommand for InitCommand {

}

} // verus!
