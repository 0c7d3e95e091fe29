//! Generating documentation.

use super::shell::{extra_words, split_extra, CommandError, Invocation};
use super::Action;
use crate::text::copy_option;
use crate::workspace::command::{Command, CommandRuntime, CommandScope, CoreCommand, WorkspaceCommand};
use crate::workspace::package::texts;
use vstd::prelude::*;
use vstd::string::StringExecFns;

verus! {

/// Generate documentation for libraries with typedoc
#[derive(Clone, PartialEq, Eq, Debug)]
pub struct DocArgs {
    /// Additional arguments to pass to typedoc
    pub typedoc_args: Option<String>,
}

/// Generates the documentation of the workspace.
pub struct DocCommand {
    args: DocArgs,
}

impl DocCommand {
    /// The arguments the command was made with.
    pub closed spec fn spec_args(&self) -> DocArgs {
        self.args
    }

    /// The command with these arguments.
    pub fn new(args: DocArgs) -> (r: Self)
        ensures
            r.spec_args() == args,
    {
        DocCommand { args }
    }

    /// The command as the workspace's runner takes it.
    pub fn kind(self) -> (r: Command)
        ensures
            r.scope is Workspace,
            r.name@ == "doc"@,
            r.deps@.len() == 0,
            r.runtime is WaitForDependencies,
            r.action == Action::Doc(self.spec_args()),
    {
        Command::from_parts(
            CommandScope::Workspace,
            String::from_str("doc"),
            Vec::new(),
            CommandRuntime::WaitForDependencies,
            Action::Doc(self.args),
        )
    }

    /// The program that generates the documentation of the workspace.
    pub fn run_ws(args: &DocArgs) -> (r: Result<Invocation, CommandError>)
        ensures
            match r {
                Ok(inv) => {
                    &&& extra_words(args.typedoc_args) == Some(texts(inv.args@))
                    &&& inv.script@ == "typedoc"@
                    &&& inv.env@.len() == 0
                    &&& inv.must_succeed
                },
                Err(e) => {
                    &&& extra_words(args.typedoc_args) is None
                    &&& e matches CommandError::BadArguments { tool }
                    &&& tool@ == "typedoc"@
                },
            },
    {
        let words = match split_extra(&args.typedoc_args, "typedoc") {
            Ok(words) => words,
            Err(e) => {
                return Err(e);
            },
        };
        Ok(Invocation { script: String::from_str("typedoc"), args: words, env: Vec::new(), must_succeed: true })
    }
}

impl CoreCommand for DocCommand {
    fn name(&self) -> (r: String)
        ensures
            r@ == "doc"@,
    {
        String::from_str("doc")
    }

    fn action(&self) -> (r: Action)
        ensures
            r == Action::Doc(self.spec_args()),
    {
        Action::Doc(DocArgs { typedoc_args: copy_option(&self.args.typedoc_args) })
    }
}

impl WorkspaceCommand for DocCommand {

}

} // verus!
