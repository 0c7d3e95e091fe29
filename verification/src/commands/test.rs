//! Running the tests of a package.

use super::builder::{is_default_build, BuildArgs, BuildCommand};
use super::shell::{extra_words, push_text, push_texts, split_extra, CommandError, Invocation};
use super::Action;
use crate::text::copy_option;
use crate::workspace::command::{Command, CommandRuntime, CommandScope, CoreCommand, PackageCommand};
use crate::workspace::package::texts;
use vstd::prelude::*;
use vstd::string::StringExecFns;

verus! {

/// Run tests via vitest
#[derive(Clone, PartialEq, Eq, Debug)]
pub struct TestArgs {
    /// If true, then rerun tests when files change
    pub watch: bool,
    /// Additional arguments to pass to vitest
    pub vitest_args: Option<String>,
}

impl Default for TestArgs {
    fn default() -> (r: Self)
        ensures
            !r.watch,
            r.vitest_args is None,
    {
        TestArgs { watch: false, vitest_args: None }
    }
}

/// Runs the tests of a package.
pub struct TestCommand {
    args: TestArgs,
}

/// The arguments that tell the test runner what to do: to run once or to
/// watch, and not to fail where there are no tests.
pub open spec fn test_mode(watch: bool) -> Seq<Seq<char>> {
    if watch {
        seq!["watch"@, "--passWithNoTests"@]
    } else {
        seq!["run"@, "--passWithNoTests"@]
    }
}

/// A command that watches runs forever; any other waits for its dependencies.
pub open spec fn runtime_of(watch: bool) -> CommandRuntime {
    if watch {
        CommandRuntime::RunForever
    } else {
        CommandRuntime::WaitForDependencies
    }
}

impl TestCommand {
    /// The arguments the command was made with.
    pub closed spec fn spec_args(&self) -> TestArgs {
        self.args
    }

    /// The command with these arguments.
    pub fn new(args: TestArgs) -> (r: Self)
        ensures
            r.spec_args() == args,
    {
        TestCommand { args }
    }

    /// The command as the workspace's runner takes it.
    pub fn kind(self) -> (r: Command)
        ensures
            r.scope is Package,
            r.name@ == "test"@,
            r.runtime == runtime_of(self.spec_args().watch),
            r.action == Action::Test(self.spec_args()),
            r.deps@.len() == 1,
            r.deps@[0].name@ == "build"@,
            r.deps@[0].scope is Package,
            r.deps@[0].runtime is WaitForDependencies,
            r.deps@[0].deps@.len() == 1,
            r.deps@[0].deps@[0].name@ == "init"@,
    {
        Command::from_parts(
            CommandScope::Package,
            String::from_str("test"),
            self.dependencies(),
            self.lifetime(),
            Action::Test(self.args),
        )
    }

    /// What has to be run before the tests: the build, with its usual choices.
    fn dependencies(&self) -> (r: Vec<Command>)
        ensures
            r@.len() == 1,
            is_default_build(r@[0]),
    {
        let mut out: Vec<Command> = Vec::new();
        out.push(BuildCommand::new(BuildArgs::default()).kind());
        out
    }

    fn lifetime(&self) -> (r: CommandRuntime)
        ensures
            r == runtime_of(self.spec_args().watch),
    {
        if self.args.watch {
            CommandRuntime::RunForever
        } else {
            CommandRuntime::WaitForDependencies
        }
    }

    /// The program that runs the tests of a package, if the package has a
    /// directory of tests.
    pub fn run_pkg(args: &TestArgs, has_tests: bool) -> (r: Result<Option<Invocation>, CommandError>)
        ensures
            match r {
                Ok(None) => !has_tests,
                Ok(Some(inv)) => {
                    &&& has_tests
                    &&& extra_words(args.vitest_args) is Some
                    &&& texts(inv.args@) == test_mode(args.watch) + extra_words(args.vitest_args)->0
                    &&& inv.script@ == "vitest"@
                    &&& inv.env@.len() == 0
                    &&& inv.must_succeed
                },
                Err(e) => {
                    &&& has_tests
                    &&& extra_words(args.vitest_args) is None
                    &&& e matches CommandError::BadArguments { tool }
                    &&& tool@ == "vitest"@
                },
            },
    {
        if !has_tests {
            return Ok(None);
        }
        let extra = match split_extra(&args.vitest_args, "vitest") {
            Ok(words) => words,
            Err(e) => {
                return Err(e);
            },
        };
        let mut words: Vec<String> = Vec::new();
        push_text(&mut words, if args.watch {
            "watch"
        } else {
            "run"
        });
        push_text(&mut words, "--passWithNoTests");
        proof {
            assert(texts(words@) =~= test_mode(args.watch));
        }
        push_texts(&mut words, &extra);
        Ok(Some(Invocation { script: String::from_str("vitest"), args: words, env: Vec::new(), must_succeed: true }))
    }
}

impl CoreCommand for TestCommand {
    fn name(&self) -> (r: String)
        ensures
            r@ == "test"@,
    {
        String::from_str("test")
    }

    fn action(&self) -> (r: Action)
        ensures
            r == Action::Test(self.spec_args()),
    {
        Action::Test(TestArgs { watch: self.args.watch, vitest_args: copy_option(&self.args.vitest_args) })
    }
}

impl PackageCommand for TestCommand {
    fn deps(&self) -> (r: Vec<Command>)
        ensures
            r@.len() == 1,
            is_default_build(r@[0]),
    {
        self.dependencies()
    }

    fn runtime(&self) -> (r: CommandRuntime)
        ensures
            r == runtime_of(self.spec_args().watch),
    {
        self.lifetime()
    }
}

} // verus!
