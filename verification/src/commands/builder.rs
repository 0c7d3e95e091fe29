//! Checking and building a package.

use super::init::{is_default_init, InitArgs, InitCommand};
use super::shell::{push_text, push_texts, Invocation};
use super::test::runtime_of;
use super::Action;
use crate::paths::{joined, path_join, path_strip_prefix, stripped};
use crate::workspace::command::{Command, CommandRuntime, CommandScope, CoreCommand, PackageCommand};
use crate::workspace::package::{texts, Target};
use vstd::prelude::*;
use vstd::string::StringExecFns;

verus! {

/// Check and build packages
#[derive(Copy, Clone, PartialEq, Eq, Debug)]
pub struct BuildArgs {
    /// Build in release mode
    pub release: bool,
    /// Don't attempt to download packages from the web
    pub offline: bool,
    /// Rebuild when files change
    pub watch: bool,
    /// Fail if eslint finds a lint issue
    pub lint_fail: bool,
}

impl Default for BuildArgs {
    fn default() -> (r: Self)
        ensures
            !r.release && !r.offline && !r.watch && !r.lint_fail,
    {
        BuildArgs { release: false, offline: false, watch: false, lint_fail: false }
    }
}

/// Checks and builds a package.
pub struct BuildCommand {
    args: BuildArgs,
}

/// `c` is the command that builds with the usual choices: it is run once for
/// each package, for development and only once, and the workspace is
/// initialized before it.
pub open spec fn is_default_build(c: Command) -> bool {
    &&& c.scope is Package
    &&& c.name@ == "build"@
    &&& c.runtime is WaitForDependencies
    &&& c.action == Action::Build(BuildArgs { release: false, offline: false, watch: false, lint_fail: false })
    &&& c.deps@.len() == 1
    &&& is_default_init(c.deps@[0])
}

/// The script of its own that a package may bring for its build.
pub const BUILD_SCRIPT: &'static str = "build.mjs";

/// One of the things that are done, side by side, to build a package.
#[derive(Copy, Clone, PartialEq, Eq, Debug)]
pub enum BuildStep {
    /// Bundle the package.
    Vite,
    /// Copy the assets next to the outputs.
    CopyAssets,
    /// Check the types.
    Tsc,
    /// Lint the source files.
    Eslint,
    /// Run the package's own build script.
    BuildScript,
}

/// What is done to build a package with the given target: a script or a
/// site is bundled and the assets of a library are copied; the types are
/// checked and the sources linted; and the build script of the package is
/// run if it has one.
pub open spec fn build_steps(target: Target, has_build_script: bool) -> Seq<BuildStep> {
    let first = if target is Lib {
        BuildStep::CopyAssets
    } else {
        BuildStep::Vite
    };
    if has_build_script {
        seq![first, BuildStep::Tsc, BuildStep::Eslint, BuildStep::BuildScript]
    } else {
        seq![first, BuildStep::Tsc, BuildStep::Eslint]
    }
}

/// The arguments of the type checker.
pub open spec fn tsc_args(args: BuildArgs, target: Target) -> Seq<Seq<char>> {
    seq!["--pretty"@] + (if args.watch {
        seq!["--watch"@]
    } else {
        Seq::empty()
    }) + (if target is Lib && !args.release {
        seq!["--sourceMap"@]
    } else {
        Seq::empty()
    })
}

/// The arguments of the bundler.
pub open spec fn vite_args(args: BuildArgs, target: Target) -> Seq<Seq<char>> {
    if target is Site {
        if args.watch {
            seq!["dev"@]
        } else {
            seq!["build"@]
        }
    } else {
        seq!["build"@] + (if args.watch {
            seq!["--watch"@]
        } else {
            Seq::empty()
        }) + (if !args.release {
            seq!["--sourcemap"@, "true"@, "--minify"@, "false"@]
        } else {
            Seq::empty()
        })
    }
}

/// The arguments with which the package manager runs the build script.
pub open spec fn build_script_args(args: BuildArgs) -> Seq<Seq<char>> {
    seq!["exec"@, "node"@, BUILD_SCRIPT@] + (if args.watch {
        seq!["--watch"@]
    } else {
        Seq::empty()
    }) + (if args.release {
        seq!["--release"@]
    } else {
        Seq::empty()
    })
}

impl BuildCommand {
    /// The arguments the command was made with.
    pub closed spec fn spec_args(&self) -> BuildArgs {
        self.args
    }

    /// The build command with the given arguments.
    pub fn new(args: BuildArgs) -> (r: Self)
        ensures
            r.spec_args() == args,
    {
        BuildCommand { args }
    }

    /// The command as the workspace's runner takes it.
    pub fn kind(self) -> (r: Command)
        ensures
            r.scope is Package,
            r.name@ == "build"@,
            r.runtime == runtime_of(self.spec_args().watch),
            r.action == Action::Build(self.spec_args()),
            r.deps@.len() == 1,
            r.deps@[0].name@ == "init"@,
            r.deps@[0].scope is Workspace,
            r.deps@[0].deps@.len() == 0,
            r.deps@[0].runtime is WaitForDependencies,
            is_default_init(r.deps@[0]),
    {
        Command::from_parts(
            CommandScope::Package,
            String::from_str("build"),
            self.dependencies(),
            self.lifetime(),
            Action::Build(self.args),
        )
    }

    /// What has to be run before the build: the workspace is initialized,
    /// with the usual choices.
    fn dependencies(&self) -> (r: Vec<Command>)
        ensures
            r@.len() == 1,
            is_default_init(r@[0]),
    {
        let mut out: Vec<Command> = Vec::new();
        out.push(InitCommand::new(InitArgs::default()).kind());
        out
    }

    fn lifetime(&self) -> (r: CommandRuntime)
        ensures
            r == runtime_of(self.spec_args().watch),
    {
        if self.args.watch {
            CommandRuntime::RunForever
        } else {
            CommandRuntime::WaitForDependencies
        }
    }

    /// What is done to build a package.
    pub fn run_pkg(target: Target, has_build_script: bool) -> (r: Vec<BuildStep>)
        ensures
            r@ == build_steps(target, has_build_script),
    {
        let mut steps: Vec<BuildStep> = Vec::new();
        match target {
            Target::Script | Target::Site => steps.push(BuildStep::Vite),
            Target::Lib => steps.push(BuildStep::CopyAssets),
        }
        steps.push(BuildStep::Tsc);
        steps.push(BuildStep::Eslint);
        if has_build_script {
            steps.push(BuildStep::BuildScript);
        }
        proof {
            assert(steps@ =~= build_steps(target, has_build_script));
        }
        steps
    }

    /// The program that checks the types of a package.
    pub fn tsc(args: &BuildArgs, target: Target) -> (inv: Invocation)
        ensures
            inv.script@ == "tsc"@,
            texts(inv.args@) == tsc_args(*args, target),
            inv.env@.len() == 0,
            inv.must_succeed,
    {
        let mut words: Vec<String> = Vec::new();
        push_text(&mut words, "--pretty");
        if args.watch {
            push_text(&mut words, "--watch");
        }
        if target.is_lib() && !args.release {
            push_text(&mut words, "--sourceMap");
        }
        proof {
            assert(texts(words@) =~= tsc_args(*args, target));
        }
        Invocation { script: String::from_str("tsc"), args: words, env: Vec::new(), must_succeed: true }
    }

    /// The program that lints the source files of a package. The command
    /// fails with it only if it was told to.
    pub fn eslint(args: &BuildArgs, source_files: &Vec<String>) -> (inv: Invocation)
        ensures
            inv.script@ == "eslint"@,
            texts(inv.args@) == texts(source_files@).push("--color"@),
            inv.env@.len() == 0,
            inv.must_succeed == args.lint_fail,
    {
        let mut words: Vec<String> = Vec::new();
        push_texts(&mut words, source_files);
        push_text(&mut words, "--color");
        proof {
            assert(texts(Seq::<String>::empty()) + texts(source_files@) =~= texts(source_files@));
        }
        Invocation { script: String::from_str("eslint"), args: words, env: Vec::new(), must_succeed: args.lint_fail }
    }

    /// The program that bundles a package.
    pub fn vite(args: &BuildArgs, target: Target) -> (inv: Invocation)
        ensures
            inv.script@ == "vite"@,
            texts(inv.args@) == vite_args(*args, target),
            inv.env@.len() == 1,
            inv.env@[0].0@ == "FORCE_COLOR"@,
            inv.env@[0].1@ == "1"@,
            inv.must_succeed,
    {
        let mut words: Vec<String> = Vec::new();
        match target {
            Target::Site => {
                push_text(&mut words, if args.watch {
                    "dev"
                } else {
                    "build"
                });
            },
            _ => {
                push_text(&mut words, "build");
                if args.watch {
                    push_text(&mut words, "--watch");
                }
                if !args.release {
                    push_text(&mut words, "--sourcemap");
                    push_text(&mut words, "true");
                    push_text(&mut words, "--minify");
                    push_text(&mut words, "false");
                }
            },
        }
        proof {
            assert(texts(words@) =~= vite_args(*args, target));
        }
        let mut env: Vec<(String, String)> = Vec::new();
        env.push((String::from_str("FORCE_COLOR"), String::from_str("1")));
        Invocation { script: String::from_str("vite"), args: words, env, must_succeed: true }
    }

    /// The program that runs the build script of a package.
    pub fn build_script(args: &BuildArgs) -> (inv: Invocation)
        ensures
            inv.script@ == "pnpm"@,
            texts(inv.args@) == build_script_args(*args),
            inv.env@.len() == 0,
            inv.must_succeed,
    {
        let mut words: Vec<String> = Vec::new();
        push_text(&mut words, "exec");
        push_text(&mut words, "node");
        push_text(&mut words, BUILD_SCRIPT);
        if args.watch {
            push_text(&mut words, "--watch");
        }
        if args.release {
            push_text(&mut words, "--release");
        }
        proof {
            assert(texts(words@) =~= build_script_args(*args));
        }
        Invocation { script: String::from_str("pnpm"), args: words, env: Vec::new(), must_succeed: true }
    }

    /// Where the asset `file` of the package at `root` is copied to: the
    /// place among the outputs that its place among the sources answers to.
    /// None for a file that is not among the sources.
    pub fn copy_assets(root: &str, file: &str) -> (r: Option<String>)
        ensures
            match r {
                Some(to) => stripped(file@, joined(root@, "src"@)) is Some && to@ == joined(
                    joined(root@, "dist"@),
                    stripped(file@, joined(root@, "src"@))->0,
                ),
                None => stripped(file@, joined(root@, "src"@)) is None,
            },
    {
        let src_dir = path_join(root, "src");
        let dst_dir = path_join(root, "dist");
        match path_strip_prefix(file, src_dir.as_str()) {
            Some(rel) => Some(path_join(dst_dir.as_str(), rel.as_str())),
            None => None,
        }
    }
}

impl CoreCommand for BuildCommand {
    fn name(&self) -> (r: String)
        ensures
            r@ == "build"@,
    {
        String::from_str("build")
    }

    fn action(&self) -> (r: Action)
        ensures
            r == Action::Build(self.spec_args()),
    {
        Action::Build(self.args)
    }
}

impl PackageCommand for BuildCommand {
    fn deps(&self) -> (r: Vec<Command>)
        ensures
            r@.len() == 1,
            is_default_init(r@[0]),
    {
        self.dependencies()
    }

    fn runtime(&self) -> (r: CommandRuntime)
        ensures
            r == runtime_of(self.spec_args().watch),
    {
        self.lifetime()
    }
}

} // verus!
