//! The repositories to process, and which rules to run on them.
use vstd::prelude::*;

use crate::utils::keyed::{keys_are_distinct, keys_of};
use crate::utils::text::{join_path, joined};

verus! {

/// Options of the rule on the shortest subject line.
#[derive(Debug, Clone, Copy, PartialEq, Eq, Structural)]
pub struct H002Config {
    /// Only subject lines shorter than this count.
    pub length_threshold: usize,
}

impl Default for H002Config {
    fn default() -> (config: Self)
        ensures
            config.length_threshold == 10,
    {
        Self { length_threshold: 10 }
    }
}

/// Options of the rule on the longest subject line.
#[derive(Debug, Clone, Copy, PartialEq, Eq, Structural)]
pub struct H003Config {
    /// Only subject lines longer than this count.
    pub length_threshold: usize,
}

impl Default for H003Config {
    fn default() -> (config: Self)
        ensures
            config.length_threshold == 72,
    {
        Self { length_threshold: 72 }
    }
}

/// Which rules run, and their options.
#[derive(Debug, Clone)]
pub struct RulesConfig {
    /// Rules to exclude. Each entry is a numeric id (`2`), a short id (`H2`),
    /// a human id (`shortest-subject-line`), a pretty id
    /// (`H2-shortest-subject-line`), or `all` for every rule.
    pub exclude: Option<Vec<String>>,
    /// Rules to run after all, applied after `exclude`: what brings back a
    /// rule that `all` excluded. Entries are as in `exclude`, but for `all`.
    pub includes: Option<Vec<String>>,
    pub h2_shortest_subject_line: Option<H002Config>,
    pub h3_longest_subject_line: Option<H003Config>,
}

impl Default for RulesConfig {
    fn default() -> (config: Self)
        ensures
            config.exclude is None,
            config.includes is None,
            config.h2_shortest_subject_line is None,
            config.h3_longest_subject_line is None,
    {
        Self {
            exclude: None,
            includes: None,
            h2_shortest_subject_line: None,
            h3_longest_subject_line: None,
        }
    }
}

/// How to clone, fetch and process one repository.
#[derive(Debug, Clone)]
pub struct RepositoryConfig {
    /// Where the clone lies on disk.
    pub path: String,
    /// The branch, tag or commit to process; `HEAD` where none is given.
    pub reference: Option<String>,
    pub url: String,
    /// The name to authenticate as. Where the clone URL gives none, `git`.
    pub remote_username: Option<String>,
    /// The private key for SSH. Without one, the SSH agent is asked.
    pub ssh_private_key: Option<String>,
    /// The public key for SSH; mostly it follows from the private key.
    pub ssh_public_key: Option<String>,
    pub ssh_passphrase: Option<String>,
    /// The password for an HTTPS clone URL. Without one, the credential
    /// helper of Git is asked.
    pub https_password: Option<String>,
}

impl Default for RepositoryConfig {
    fn default() -> (config: Self)
        ensures
            config.path@.len() == 0,
            config.url@.len() == 0,
            config.reference is None,
            config.remote_username is None,
            config.ssh_private_key is None,
            config.ssh_public_key is None,
            config.ssh_passphrase is None,
            config.https_password is None,
    {
        Self {
            path: String::new(),
            reference: None,
            url: String::new(),
            remote_username: None,
            ssh_private_key: None,
            ssh_public_key: None,
            ssh_passphrase: None,
            https_password: None,
        }
    }
}

/// The whole configuration.
#[derive(Debug, Clone)]
pub struct Config {
    /// The repositories by name. No name occurs twice.
    pub repositories: Vec<(String, RepositoryConfig)>,
    pub rules: Option<RulesConfig>,
}

impl Default for Config {
    fn default() -> (config: Self)
        ensures
            config.repositories@.len() == 0,
            config.rules is None,
    {
        Self { repositories: Vec::new(), rules: None }
    }
}

impl Config {
    /// Whether no repository name occurs twice.
    pub open spec fn wf(&self) -> bool {
        keys_of(self.repositories@).no_duplicates()
    }

    /// Whether no repository name occurs twice.
    pub fn is_well_formed(&self) -> (r: bool)
        ensures
            r == self.wf(),
    {
        keys_are_distinct(&self.repositories)
    }
}

/// A configuration in which no rule runs but those that `rule` names, by
/// numeric, short, human or pretty id.
pub fn exclude_all_rules_except(rule: &str) -> (config: Config)
    ensures
        config.repositories@.len() == 0,
        config.rules matches Some(rules) && {
            &&& rules.exclude matches Some(exclude) && exclude@.len() == 1 && exclude@[0]@ == "all"@
            &&& rules.includes matches Some(includes) && includes@.len() == 1 && includes@[0]@
                == rule@
            &&& rules.h2_shortest_subject_line is None
            &&& rules.h3_longest_subject_line is None
        },
{
    let mut exclude: Vec<String> = Vec::new();
    exclude.push("all".to_owned());
    let mut includes: Vec<String> = Vec::new();
    includes.push(rule.to_owned());
    Config {
        repositories: Vec::new(),
        rules: Some(
            RulesConfig {
                exclude: Some(exclude),
                includes: Some(includes),
                h2_shortest_subject_line: None,
                h3_longest_subject_line: None,
            },
        ),
    }
}

/// The path of the configuration file in the data directory.
pub fn config_path(data_dir: &str) -> (path: String)
    ensures
        path@ == joined(data_dir@, "config.toml"@),
{
    join_path(data_dir, "config.toml")
}

} // verus!
