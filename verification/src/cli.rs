//! What the command line asks for.
use vstd::prelude::*;

verus! {

/// How much the program logs.
#[derive(Clone, Copy, Debug, PartialEq, Eq, Structural)]
pub enum LogLevel {
    Error,
    Warn,
    Info,
    Debug,
    Trace,
}

/// The arguments of the program.
#[derive(Clone, Debug)]
pub struct Args {
    /// The log level. The environment variable `HEROSTRATUS_LOG` goes
    /// before it where it is set and not empty.
    pub log_level: LogLevel,
    /// The data directory, in place of the one of the platform.
    pub data_dir: Option<String>,
    /// Print the data directory and exit.
    pub get_data_dir: bool,
    /// Print the configuration and exit.
    pub get_config: bool,
    /// Print the rules and exit.
    pub list_rules: bool,
    /// Color the output even where it is no terminal.
    pub color: bool,
    pub command: Option<Command>,
}

/// A subcommand.
#[derive(Clone, Debug)]
pub enum Command {
    Check(CheckArgs),
    Add(AddArgs),
    Remove(RemoveArgs),
    CheckAll(CheckAllArgs),
    FetchAll(FetchAllArgs),
}

/// Process one repository and reference, and leave no trace.
#[derive(Clone, Debug)]
pub struct CheckArgs {
    /// The path of a Git repository. It may be bare, and it may be the
    /// `.git` directory.
    pub path: String,
    /// The reference or revision to process: every commit that it reaches.
    pub reference: String,
    /// How many commits to process at most.
    pub depth: Option<usize>,
    /// Print a summary after the achievements.
    pub summary: bool,
}

/// Add a repository to be processed later.
#[derive(Clone, Debug)]
pub struct AddArgs {
    /// A clone URL.
    pub url: String,
    /// The branch to clone and to check, in place of `HEAD`.
    pub branch: Option<String>,
    /// Where to clone to, in place of a path in the data directory.
    pub path: Option<String>,
    /// The name of the repository, in place of the end of the URL.
    pub name: Option<String>,
    /// Overwrite a clone that is there already.
    pub force: bool,
    /// Only add the repository to the configuration.
    pub skip_clone: bool,
    pub remote_username: Option<String>,
    pub ssh_private_key: Option<String>,
    pub ssh_public_key: Option<String>,
    pub ssh_passphrase: Option<String>,
    pub https_password: Option<String>,
}

/// Process every repository of the configuration.
#[derive(Clone, Copy, Debug)]
pub struct CheckAllArgs {
    /// Do not fetch before checking.
    pub no_fetch: bool,
    /// How many commits to process at most in each repository.
    pub depth: Option<usize>,
    /// Print a summary after the achievements.
    pub summary: bool,
}

/// Fetch every repository of the configuration.
#[derive(Clone, Copy, Debug)]
pub struct FetchAllArgs {}

/// Remove a repository from the configuration.
#[derive(Clone, Debug)]
pub struct RemoveArgs {
    pub url: Option<String>,
    pub path: Option<String>,
}

/// What the program does first, given its arguments.
#[derive(Clone, Copy, Debug, PartialEq, Eq, Structural)]
pub enum Action {
    /// Print the data directory and exit.
    PrintDataDir,
    /// Print the configuration and exit.
    PrintConfig,
    /// Print the rules and exit.
    ListRules,
    /// Fail: no subcommand was given.
    MissingSubcommand,
    /// Run `check`, which reads the configuration only where a data
    /// directory was given, and never writes it.
    Check,
    /// Run another subcommand: read the configuration, run, and write the
    /// configuration back.
    Stateful,
}

impl Args {
    /// What these arguments ask for. The three queries go before any
    /// subcommand, in the order data directory, configuration, rules.
    pub open spec fn asks_for(&self) -> Action {
        if self.get_data_dir {
            Action::PrintDataDir
        } else if self.get_config {
            Action::PrintConfig
        } else if self.list_rules {
            Action::ListRules
        } else {
            match self.command {
                None => Action::MissingSubcommand,
                Some(Command::Check(_)) => Action::Check,
                Some(_) => Action::Stateful,
            }
        }
    }

    /// What the program does first.
    pub fn action(&self) -> (action: Action)
        ensures
            action == self.asks_for(),
    {
        if self.get_data_dir {
            return Action::PrintDataDir;
        }
        if self.get_config {
            return Action::PrintConfig;
        }
        if self.list_rules {
            return Action::ListRules;
        }
        match &self.command {
            None => Action::MissingSubcommand,
            Some(Command::Check(_)) => Action::Check,
            Some(_) => Action::Stateful,
        }
    }
}

impl FetchAllArgs {
    /// The arguments of the fetch that goes before a check of all.
    pub fn from_check_all(args: &CheckAllArgs) -> (fetch: FetchAllArgs) {
        FetchAllArgs {  }
    }
}

} // verus!
