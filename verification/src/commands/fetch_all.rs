//! Fetching the repositories of the configuration.
use std::time::Duration;

use vstd::prelude::*;

use crate::config::{Config, RepositoryConfig};

verus! {

/// Trusted: std's `Clone` for `Duration`, which is `Copy`, returns the
/// duration that it is given.
pub assume_specification[ <Duration as Clone>::clone ](duration: &Duration) -> (copy: Duration)
    ensures
        copy == *duration,
;

/// What fetching one repository came to.
#[derive(Clone, Debug)]
pub struct FetchStat {
    pub name: String,
    /// How many commits were fetched. `None` for a repository that was
    /// cloned anew.
    pub num_commits_fetched: Option<u64>,
    pub elapsed: Duration,
}

/// What is to be done to bring a repository up to date.
#[derive(Clone, Copy, Debug, PartialEq, Eq, Structural)]
pub enum FetchAction {
    /// Pull the reference of the configuration from the remote.
    Pull,
    /// Clone the repository: it was added without being cloned.
    Clone,
}

/// What was done to bring a repository up to date.
#[derive(Clone, Copy, Debug, PartialEq, Eq, Structural)]
pub enum Fetched {
    /// The reference was pulled, and so many commits came with it.
    Pulled(u64),
    /// The repository was cloned.
    Cloned,
}

/// What is to be done to bring a repository up to date: it is pulled where
/// it is found on disk, and cloned where it is not.
pub fn fetch_action(found_locally: bool) -> (action: FetchAction)
    ensures
        action == if found_locally {
            FetchAction::Pull
        } else {
            FetchAction::Clone
        },
{
    if found_locally {
        FetchAction::Pull
    } else {
        FetchAction::Clone
    }
}

/// Whether `stat` says of the repository `name` that `fetched` was done to
/// it, in the time `elapsed`.
pub open spec fn tells(stat: FetchStat, name: String, fetched: Fetched, elapsed: Duration) -> bool {
    &&& stat.name == name
    &&& stat.elapsed == elapsed
    &&& stat.num_commits_fetched == match fetched {
        Fetched::Pulled(n) => Some(n),
        Fetched::Cloned => None,
    }
}

/// What fetching the repositories of the configuration came to: one entry
/// for each repository, in their order, as far as there are results. A
/// result says what was done to the repository, and how long it took.
pub fn fetch_all(config: &Config, results: &Vec<(Fetched, Duration)>) -> (stats: Vec<FetchStat>)
    ensures
        stats@.len() == if config.repositories@.len() <= results@.len() {
            config.repositories@.len()
        } else {
            results@.len()
        },
        forall|i: int|
            0 <= i < stats@.len() ==> tells(
                #[trigger] stats@[i],
                config.repositories@[i].0,
                results@[i].0,
                results@[i].1,
            ),
{
    let mut stats: Vec<FetchStat> = Vec::new();
    let mut i: usize = 0;
    while i < config.repositories.len() && i < results.len()
        invariant
            i <= config.repositories@.len(),
            i <= results@.len(),
            stats@.len() == i,
            forall|k: int|
                0 <= k < i ==> tells(
                    #[trigger] stats@[k],
                    config.repositories@[k].0,
                    results@[k].0,
                    results@[k].1,
                ),
        decreases config.repositories@.len() - i,
    {
        let num_commits_fetched = match results[i].0 {
            Fetched::Pulled(n) => Some(n),
            Fetched::Cloned => None,
        };
        stats.push(
            FetchStat {
                name: config.repositories[i].0.clone(),
                num_commits_fetched,
                elapsed: results[i].1,
            },
        );
        i += 1;
    }
    stats
}

/// The reference of a repository that is processed: the one of its
/// configuration, or `HEAD`.
pub open spec fn reference_of(repo: RepositoryConfig) -> Seq<char> {
    match repo.reference {
        Some(reference) => reference@,
        None => "HEAD"@,
    }
}

/// The reference of a repository that is processed.
pub fn reference_name(repo: &RepositoryConfig) -> (reference: String)
    ensures
        reference@ == reference_of(*repo),
{
    match &repo.reference {
        Some(reference) => reference.clone(),
        None => "HEAD".to_owned(),
    }
}

} // verus!
