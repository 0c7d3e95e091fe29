//! The commands that a workspace can run: what each is called, what it has to
//! wait for, and which programs it starts with which arguments.

pub mod builder;
pub mod clean;
pub mod doc;
pub mod fix;
pub mod fmt;
pub mod init;
pub mod json;
pub mod new;
pub mod setup;
pub mod shell;
pub mod templates;
pub mod test;

use self::builder::{BuildArgs, BuildCommand};
use self::clean::{CleanArgs, CleanCommand};
use self::doc::{DocArgs, DocCommand};
use self::fix::{FixArgs, FixCommand};
use self::fmt::{FmtArgs, FmtCommand};
use self::init::{InitArgs, InitCommand};
use self::new::NewArgs;
use self::setup::SetupArgs;
use self::test::{TestArgs, TestCommand};
use vstd::prelude::*;

verus! {

/// What a command does when one of its tasks is run.
#[derive(Clone, PartialEq, Eq, Debug)]
pub enum Action {
    Build(BuildArgs),
    Test(TestArgs),
    Clean(CleanArgs),
    Doc(DocArgs),
    Fmt(FmtArgs),
    Fix(FixArgs),
    Init(InitArgs),
    /// Something that is not among the commands of this library.
    Custom,
}

/// A command as it is given on the command line.
pub enum Command {
    New(NewArgs),
    Build(BuildArgs),
    Test(TestArgs),
    Clean(CleanArgs),
    Doc(DocArgs),
    Fmt(FmtArgs),
    Fix(FixArgs),
    Init(InitArgs),
    Setup(SetupArgs),
}

impl Command {
    /// Whether the command is run on a workspace that exists. The commands
    /// that make a workspace or set the machine up are not.
    pub open spec fn runs_on_workspace(&self) -> bool {
        !(self is New) && !(self is Setup)
    }

    /// The command to hand to the workspace's runner, for the commands that
    /// are run on a workspace.
    pub fn kind(self) -> (r: Option<crate::workspace::command::Command>)
        ensures
            r is Some <==> self.runs_on_workspace(),
            match self {
                Command::Build(args) => r->0.action == Action::Build(args) && r->0.name@ == "build"@ && r->0.scope is Package,
                Command::Test(args) => r->0.action == Action::Test(args) && r->0.name@ == "test"@ && r->0.scope is Package,
                Command::Clean(args) => r->0.action == Action::Clean(args) && r->0.name@ == "clean"@ && r->0.scope is Workspace,
                Command::Doc(args) => r->0.action == Action::Doc(args) && r->0.name@ == "doc"@ && r->0.scope is Workspace,
                Command::Fmt(args) => r->0.action == Action::Fmt(args) && r->0.name@ == "fmt"@ && r->0.scope is Package,
                Command::Fix(args) => r->0.action == Action::Fix(args) && r->0.name@ == "fix"@ && r->0.scope is Package,
                Command::Init(args) => r->0.action == Action::Init(args) && r->0.name@ == "init"@ && r->0.scope is Workspace,
                Command::New(_) => true,
                Command::Setup(_) => true,
            },
    {
        match self {
            Command::Init(args) => Some(InitCommand::new(args).kind()),
            Command::Build(args) => Some(BuildCommand::new(args).kind()),
            Command::Test(args) => Some(TestCommand::new(args).kind()),
            Command::Fmt(args) => Some(FmtCommand::new(args).kind()),
            Command::Clean(args) => Some(CleanCommand::new(args).kind()),
            Command::Doc(args) => Some(DocCommand::new(args).kind()),
            Command::Fix(args) => Some(FixCommand::new(args).kind()),
            Command::New(_) => None,
            Command::Setup(_) => None,
        }
    }
}

} // verus!
