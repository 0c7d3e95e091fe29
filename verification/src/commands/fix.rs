//! Mending what the linter can mend by itself.

use super::shell::{extra_words, push_text, push_texts, split_extra, CommandError, Invocation};
use super::Action;
use crate::text::copy_option;
use crate::workspace::command::{Command, CommandRuntime, CommandScope, CoreCommand, PackageCommand};
use crate::workspace::package::texts;
use vstd::prelude::*;
use vstd::string::StringExecFns;

verus! {

/// Fix eslint issues where possible
#[derive(Clone, PartialEq, Eq, Debug)]
pub struct FixArgs {
    /// Additional arguments to pass to eslint
    pub eslint_args: Option<String>,
}

/// Mends in a package what the linter can mend.
pub struct FixCommand {
    args: FixArgs,
}

impl FixCommand {
    /// The arguments the command was made with.
    pub closed spec fn spec_args(&self) -> FixArgs {
        self.args
    }

    /// The command with these arguments.
    pub fn new(args: FixArgs) -> (r: Self)
        ensures
            r.spec_args() == args,
    {
        FixCommand { args }
    }

    /// The command as the workspace's runner takes it.
    pub fn kind(self) -> (r: Command)
        ensures
            r.scope is Package,
            r.name@ == "fix"@,
            r.deps@.len() == 0,
            r.runtime is WaitForDependencies,
            r.action == Action::Fix(self.spec_args()),
    {
        Command::from_parts(
            CommandScope::Package,
            String::from_str("fix"),
            Vec::new(),
            CommandRuntime::WaitForDependencies,
            Action::Fix(self.args),
        )
    }

    /// The program that mends the source files of a package. The command
    /// does not fail when the program does.
    pub fn run_pkg(args: &FixArgs, source_files: &Vec<String>) -> (r: Result<Invocation, CommandError>)
        ensures
            match r {
                Ok(inv) => {
                    &&& extra_words(args.eslint_args) is Some
                    &&& texts(inv.args@) == seq!["--fix"@] + texts(source_files@) + extra_words(args.eslint_args)->0
                    &&& inv.script@ == "eslint"@
                    &&& inv.env@.len() == 0
                    &&& !inv.must_succeed
                },
                Err(e) => {
                    &&& extra_words(args.eslint_args) is None
                    &&& e matches CommandError::BadArguments { tool }
                    &&& tool@ == "prettier"@
                },
            },
    {
        let extra = match split_extra(&args.eslint_args, "prettier") {
            Ok(words) => words,
            Err(e) => {
                return Err(e);
            },
        };
        let mut words: Vec<String> = Vec::new();
        push_text(&mut words, "--fix");
        push_texts(&mut words, source_files);
        push_texts(&mut words, &extra);
        proof {
            assert(texts(Seq::<String>::empty()).push("--fix"@) =~= seq!["--fix"@]);
        }
        Ok(Invocation { script: String::from_str("eslint"), args: words, env: Vec::new(), must_succeed: false })
    }
}

impl CoreCommand for FixCommand {
    fn name(&self) -> (r: String)
        ensures
            r@ == "fix"@,
    {
        String::from_str("fix")
    }

    fn action(&self) -> (r: Action)
        ensures
            r == Action::Fix(self.spec_args()),
    {
        Action::Fix(FixArgs { eslint_args: copy_option(&self.args.eslint_args) })
    }
}

impl PackageCommand for FixCommand {
    fn deps(&self) -> (r: Vec<Command>)
        ensures
            r@.len() == 0,
    {
        Vec::new()
    }

    fn runtime(&self) -> (r: CommandRuntime)
        ensures
            r is WaitForDependencies,
    {
        CommandRuntime::WaitForDependencies
    }
}

} // verus!
