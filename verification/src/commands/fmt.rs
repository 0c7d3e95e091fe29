//! Formatting source files.

use super::shell::{extra_words, push_text, push_texts, split_extra, CommandError, Invocation};
use super::Action;
use crate::text::copy_option;
use crate::workspace::command::{Command, CommandRuntime, CommandScope, CoreCommand, PackageCommand};
use crate::workspace::package::texts;
use vstd::prelude::*;
use vstd::string::StringExecFns;

verus! {

/// Format source files with biome
#[derive(Clone, PartialEq, Eq, Debug)]
pub struct FmtArgs {
    /// If true, don't write to files and instead fail if they aren't formatted
    pub check: bool,
    /// Additional arguments to pass to the formatter
    pub prettier_args: Option<String>,
}

/// Formats the source files of a package.
pub struct FmtCommand {
    args: FmtArgs,
}

/// The arguments that tell the formatter what to do: to format, and to write
/// the result unless it is only to check.
pub open spec fn fmt_mode(check: bool) -> Seq<Seq<char>> {
    if check {
        seq!["format"@]
    } else {
        seq!["format"@, "--write"@]
    }
}

impl FmtCommand {
    /// The arguments the command was made with.
    pub closed spec fn spec_args(&self) -> FmtArgs {
        self.args
    }

    /// The command with these arguments.
    pub fn new(args: FmtArgs) -> (r: Self)
        ensures
            r.spec_args() == args,
    {
        FmtCommand { args }
    }

    /// The command as the workspace's runner takes it.
    pub fn kind(self) -> (r: Command)
        ensures
            r.scope is Package,
            r.name@ == "fmt"@,
            r.deps@.len() == 0,
            r.runtime is WaitForDependencies,
            r.action == Action::Fmt(self.spec_args()),
    {
        Command::from_parts(
            CommandScope::Package,
            String::from_str("fmt"),
            Vec::new(),
            CommandRuntime::WaitForDependencies,
            Action::Fmt(self.args),
        )
    }

    /// The program that formats the source files of a package.
    pub fn run_pkg(args: &FmtArgs, source_files: &Vec<String>) -> (r: Result<Invocation, CommandError>)
        ensures
            match r {
                Ok(inv) => {
                    &&& extra_words(args.prettier_args) is Some
                    &&& texts(inv.args@) == fmt_mode(args.check) + texts(source_files@) + extra_words(args.prettier_args)->0
                    &&& inv.script@ == "biome"@
                    &&& inv.env@.len() == 0
                    &&& inv.must_succeed
                },
                Err(e) => {
                    &&& extra_words(args.prettier_args) is None
                    &&& e matches CommandError::BadArguments { tool }
                    &&& tool@ == "prettier"@
                },
            },
    {
        let extra = match split_extra(&args.prettier_args, "prettier") {
            Ok(words) => words,
            Err(e) => {
                return Err(e);
            },
        };
        let mut words: Vec<String> = Vec::new();
        push_text(&mut words, "format");
        if !args.check {
            push_text(&mut words, "--write");
        }
        proof {
            assert(texts(words@) =~= fmt_mode(args.check));
        }
        push_texts(&mut words, source_files);
        push_texts(&mut words, &extra);
        Ok(Invocation { script: String::from_str("biome"), args: words, env: Vec::new(), must_succeed: true })
    }
}

impl CoreCommand for FmtCommand {
    fn name(&self) -> (r: String)
        ensures
            r@ == "fmt"@,
    {
        String::from_str("fmt")
    }

    fn action(&self) -> (r: Action)
        ensures
            r == Action::Fmt(self.spec_args()),
    {
        Action::Fmt(FmtArgs { check: self.args.check, prettier_args: copy_option(&self.args.prettier_args) })
    }
}

impl PackageCommand for FmtCommand {
    fn deps(&self) -> (r: Vec<Command>)
        ensures
            r@.len() == 0,
    {
        Vec::new()
    }

    fn runtime(&self) -> (r: CommandRuntime)
        ensures
            r is WaitForDependencies,
    {
        CommandRuntime::WaitForDependencies
    }
}

} // verus!
