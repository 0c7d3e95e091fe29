//! The tool chain that is shared by all workspaces of a machine: where it
//! lives and where its package manager is fetched from.

use crate::paths::{joined, path_join};
use vstd::prelude::*;
use vstd::string::StringExecFns;

verus! {

/// The environment variable that names the tool chain's directory.
pub const HOME_ENV_VAR: &'static str = "DEPOT_HOME";

/// The version of the package manager that is fetched.
pub const PNPM_VERSION: &'static str = "9.9.0";

/// Arguments of the command that sets the tool chain up.
#[derive(Clone, PartialEq, Eq, Debug)]
pub struct SetupArgs {
    /// Directory for the tool chain; where it is left out, the directory is
    /// found as `GlobalConfig::find_root` says.
    pub config_dir: Option<String>,
}

/// Sets the machine up for the tool chain.
pub struct SetupCommand {
    args: SetupArgs,
}

/// Why the tool chain could not be found.
#[derive(Clone, PartialEq, Eq, Debug)]
pub enum ConfigError {
    /// Neither the environment nor the user's account names a directory.
    NoHomeDirectory,
    /// The tool chain's directory does not exist.
    MissingRoot { root: String },
    /// The package manager is neither in the tool chain's directory nor on
    /// the search path.
    MissingPnpm,
}

/// Where the tool chain that all workspaces share lives, and where its package manager is.
#[derive(Clone, PartialEq, Eq, Debug)]
pub struct GlobalConfig {
    root: String,
    pnpm_path: String,
}

/// The directory of the tool chain: the one the environment names, else
/// `.local` in the user's home directory.
pub open spec fn config_root(env_home: Option<String>, home_dir: Option<String>) -> Option<Seq<char>> {
    match env_home {
        Some(dir) => Some(dir@),
        None => match home_dir {
            Some(home) => Some(joined(home@, ".local"@)),
            None => None,
        },
    }
}

/// The name of the operating system in the package manager's downloads.
pub open spec fn download_platform(os: Seq<char>) -> Seq<char> {
    if os == "macos"@ || os == "ios"@ {
        "macos"@
    } else if os == "windows"@ {
        "win"@
    } else {
        "linuxstatic"@
    }
}

/// The name of the processor architecture in the package manager's downloads.
pub open spec fn download_arch(arch: Seq<char>) -> Seq<char> {
    if arch == "arm"@ || arch == "aarch64"@ {
        "arm64"@
    } else {
        "x64"@
    }
}

/// The address from which the package manager is fetched.
pub open spec fn download_url(os: Seq<char>, arch: Seq<char>) -> Seq<char> {
    "https://github.com/pnpm/pnpm/releases/download/v"@ + PNPM_VERSION@ + "/pnpm-"@ + download_platform(os) + "-"@
        + download_arch(arch)
}

impl GlobalConfig {
    /// The directory of the tool chain.
    pub closed spec fn spec_root(&self) -> Seq<char> {
        self.root@
    }

    /// The path of the package manager.
    pub closed spec fn spec_pnpm_path(&self) -> Seq<char> {
        self.pnpm_path@
    }

    /// The directory of the tool chain, given what the environment variable
    /// `DEPOT_HOME` holds and where the user's home directory is.
    pub fn find_root(env_home: Option<String>, home_dir: Option<String>) -> (r: Result<String, ConfigError>)
        ensures
            match r {
                Ok(root) => config_root(env_home, home_dir) == Some(root@),
                Err(e) => config_root(env_home, home_dir) is None && e == ConfigError::NoHomeDirectory,
            },
    {
        match env_home {
            Some(dir) => Ok(dir),
            None => match home_dir {
                Some(home) => Ok(path_join(home.as_str(), ".local")),
                None => Err(ConfigError::NoHomeDirectory),
            },
        }
    }

    /// Where the package manager lies when it was fetched into the tool chain.
    pub fn pnpm_in_root(root: &str) -> (r: String)
        ensures
            r@ == joined(joined(root@, "bin"@), "pnpm"@),
    {
        let bin = path_join(root, "bin");
        path_join(bin.as_str(), "pnpm")
    }

    /// The tool chain in the directory `root`, given whether the directory
    /// exists, whether it holds the package manager, and where the package
    /// manager is found on the search path.
    pub fn load(root: String, root_exists: bool, pnpm_in_root: bool, pnpm_on_path: Option<String>) -> (r: Result<
        GlobalConfig,
        ConfigError,
    >)
        ensures
            match r {
                Ok(config) => {
                    &&& root_exists
                    &&& config.spec_root() == root@
                    &&& if pnpm_in_root {
                        config.spec_pnpm_path() == joined(joined(root@, "bin"@), "pnpm"@)
                    } else {
                        pnpm_on_path is Some && config.spec_pnpm_path() == pnpm_on_path->0@
                    }
                },
                Err(ConfigError::MissingRoot { root: at }) => !root_exists && at == root,
                Err(ConfigError::MissingPnpm) => root_exists && !pnpm_in_root && pnpm_on_path is None,
                Err(ConfigError::NoHomeDirectory) => false,
            },
    {
        if !root_exists {
            return Err(ConfigError::MissingRoot { root });
        }
        let pnpm_path = if pnpm_in_root {
            GlobalConfig::pnpm_in_root(root.as_str())
        } else {
            match pnpm_on_path {
                Some(path) => path,
                None => {
                    return Err(ConfigError::MissingPnpm);
                },
            }
        };
        Ok(GlobalConfig { root, pnpm_path })
    }

    /// The directory of the tool chain.
    pub fn root(&self) -> (r: &str)
        ensures
            r@ == self.spec_root(),
    {
        self.root.as_str()
    }

    /// The path of the package manager.
    pub fn pnpm_path(&self) -> (r: &str)
        ensures
            r@ == self.spec_pnpm_path(),
    {
        self.pnpm_path.as_str()
    }

    /// The directory of the tool chain's executables.
    pub fn bindir(&self) -> (r: String)
        ensures
            r@ == joined(self.spec_root(), "bin"@),
    {
        path_join(self.root.as_str(), "bin")
    }

    /// The directory of the modules that are installed for all workspaces.
    pub fn node_path(&self) -> (r: String)
        ensures
            r@ == joined(joined(self.spec_root(), "bin"@), "global/5/node_modules"@),
    {
        let bin = self.bindir();
        path_join(bin.as_str(), "global/5/node_modules")
    }
}

impl SetupCommand {
    /// The command with these arguments.
    pub fn new(args: SetupArgs) -> (r: Self)
        ensures
            r.spec_args() == args,
    {
        SetupCommand { args }
    }

    /// The arguments the command was made with.
    pub closed spec fn spec_args(&self) -> SetupArgs {
        self.args
    }

    /// The directory to set up: the one the arguments name, else the one the
    /// environment or the user's account gives.
    pub fn config_dir(self, env_home: Option<String>, home_dir: Option<String>) -> (r: Result<String, ConfigError>)
        ensures
            match r {
                Ok(dir) => match self.spec_args().config_dir {
                    Some(given) => dir == given,
                    None => config_root(env_home, home_dir) == Some(dir@),
                },
                Err(e) => {
                    &&& self.spec_args().config_dir is None
                    &&& config_root(env_home, home_dir) is None
                    &&& e == ConfigError::NoHomeDirectory
                },
            },
    {
        match self.args.config_dir {
            Some(dir) => Ok(dir),
            None => GlobalConfig::find_root(env_home, home_dir),
        }
    }

    /// Whether the package manager has to be fetched: when it is neither in
    /// the tool chain's directory nor on the search path.
    pub fn needs_pnpm(pnpm_in_root: bool, pnpm_on_path: bool) -> (r: bool)
        ensures
            r == (!pnpm_in_root && !pnpm_on_path),
    {
        !pnpm_in_root && !pnpm_on_path
    }

    /// The address from which the package manager is fetched for the
    /// operating system `os` and the processor architecture `arch`.
    pub fn pnpm_url(os: &str, arch: &str) -> (r: String)
        ensures
            r@ == download_url(os@, arch@),
    {
        let platform = if crate::text::str_eq(os, "macos") || crate::text::str_eq(os, "ios") {
            "macos"
        } else if crate::text::str_eq(os, "windows") {
            "win"
        } else {
            "linuxstatic"
        };
        let arch_name = if crate::text::str_eq(arch, "arm") || crate::text::str_eq(arch, "aarch64") {
            "arm64"
        } else {
            "x64"
        };
        let mut url = String::from_str("https://github.com/pnpm/pnpm/releases/download/v");
        url.append(PNPM_VERSION);
        url.append("/pnpm-");
        url.append(platform);
        url.append("-");
        url.append(arch_name);
        url
    }
}

/// What is said to the user of a tool chain that could not be found.
pub open spec fn config_error_text(e: ConfigError) -> Seq<char> {
    match e {
        ConfigError::NoHomeDirectory => "Could not find home directory"@,
        ConfigError::MissingRoot { root } => "Depot global config directory does not exist: "@ + root@,
        ConfigError::MissingPnpm => "pnpm is not installed"@,
    }
}

impl ConfigError {
    /// What is said to the user.
    pub fn to_string(&self) -> (r: String)
        ensures
            r@ == config_error_text(*self),
    {
        match self {
            ConfigError::NoHomeDirectory => String::from_str("Could not find home directory"),
            ConfigError::MissingRoot { root } => String::from_str("Depot global config directory does not exist: ").concat(
                root.as_str(),
            ),
            ConfigError::MissingPnpm => String::from_str("pnpm is not installed"),
        }
    }
}

} // verus!
