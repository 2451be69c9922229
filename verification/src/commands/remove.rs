//! Removing a repository from the configuration.
use vstd::prelude::*;

use crate::cli::RemoveArgs;
use crate::config::{Config, RepositoryConfig};
use crate::utils::keyed::keys_of;
use crate::utils::text::str_eq;

verus! {

/// Whether `args` name the repository: by its URL, or by its path.
pub open spec fn names(args: RemoveArgs, repo: RepositoryConfig) -> bool {
    ||| args.url matches Some(url) && url@ == repo.url@
    ||| args.path matches Some(path) && path@ == repo.path@
}

/// The entries without the repositories that `args` name, in order.
pub open spec fn without_named(
    repositories: Seq<(String, RepositoryConfig)>,
    args: RemoveArgs,
) -> Seq<(String, RepositoryConfig)>
    decreases repositories.len(),
{
    if repositories.len() == 0 {
        Seq::empty()
    } else if names(args, repositories.last().1) {
        without_named(repositories.drop_last(), args)
    } else {
        without_named(repositories.drop_last(), args).push(repositories.last())
    }
}

/// Whether `args` name the repository.
fn is_named(args: &RemoveArgs, repo: &RepositoryConfig) -> (r: bool)
    ensures
        r == names(*args, *repo),
{
    let by_url = match &args.url {
        Some(url) => str_eq(url.as_str(), repo.url.as_str()),
        None => false,
    };
    let by_path = match &args.path {
        Some(path) => str_eq(path.as_str(), repo.path.as_str()),
        None => false,
    };
    by_url || by_path
}

/// What is left of entries is among them, in their order: the keys that are
/// left do not occur twice where none did before.
proof fn lemma_without_named_keys(repositories: Seq<(String, RepositoryConfig)>, args: RemoveArgs)
    ensures
        forall|i: int|
            0 <= i < without_named(repositories, args).len() ==> exists|k: int|
                i <= k < repositories.len() && repositories[k] == #[trigger] without_named(
                    repositories,
                    args,
                )[i],
        keys_of(repositories).no_duplicates() ==> keys_of(
            without_named(repositories, args),
        ).no_duplicates(),
        without_named(repositories, args).len() <= repositories.len(),
    decreases repositories.len(),
{
    if repositories.len() > 0 {
        let front = repositories.drop_last();
        lemma_without_named_keys(front, args);
        let kept = without_named(repositories, args);
        let before = without_named(front, args);
        assert forall|i: int| 0 <= i < kept.len() implies exists|k: int|
            i <= k < repositories.len() && repositories[k] == #[trigger] kept[i] by {
            if i < before.len() {
                assert(kept[i] == before[i]);
                let k = choose|k: int| i <= k < front.len() && front[k] == before[i];
                assert(repositories[k] == kept[i]);
            } else {
                assert(repositories[repositories.len() - 1] == kept[i]);
            }
        }
        if keys_of(repositories).no_duplicates() {
            assert forall|i: int, j: int|
                0 <= i < front.len() && 0 <= j < front.len() && i != j implies keys_of(front)[i]
                != keys_of(front)[j] by {
                assert(keys_of(repositories)[i] != keys_of(repositories)[j]);
            }
            assert(keys_of(front).no_duplicates());
            if !names(args, repositories.last().1) {
                let last = repositories.last();
                assert forall|i: int, j: int|
                    0 <= i < kept.len() && 0 <= j < kept.len() && i != j implies keys_of(kept)[i]
                    != keys_of(kept)[j] by {
                    if i < before.len() && j < before.len() {
                        assert(keys_of(before)[i] != keys_of(before)[j]);
                    } else {
                        let low = if i < j {
                            i
                        } else {
                            j
                        };
                        let k = choose|k: int| low <= k < front.len() && front[k] == before[low];
                        assert(keys_of(repositories)[k] != keys_of(repositories)[repositories.len()
                            - 1]);
                    }
                }
            }
        }
    }
}

/// Removes from the configuration every repository that `args` name, by URL
/// or by path. Returns how many were removed.
pub fn remove(args: &RemoveArgs, config: &mut Config) -> (removed: usize)
    ensures
        final(config).rules == old(config).rules,
        final(config).repositories@ == without_named(old(config).repositories@, *args),
        removed == old(config).repositories@.len() - final(config).repositories@.len(),
        old(config).wf() ==> final(config).wf(),
{
    let mut rest: Vec<(String, RepositoryConfig)> = Vec::new();
    core::mem::swap(&mut config.repositories, &mut rest);
    let ghost all = rest@;
    let ghost mut taken: int = 0;
    let total: usize = rest.len();
    let mut removed: usize = 0;
    proof {
        lemma_without_named_keys(all, *args);
        assert(all.take(0) =~= Seq::empty());
    }
    while rest.len() > 0
        invariant
            0 <= taken,
            taken + rest@.len() == all.len(),
            all.len() == total,
            rest@ == all.skip(taken),
            config.repositories@ == without_named(all.take(taken), *args),
            removed + config.repositories@.len() == taken,
            config.rules == old(config).rules,
        decreases rest@.len(),
    {
        let entry = rest.remove(0);
        proof {
            assert(entry == all[taken]);
            assert(all.take(taken + 1).drop_last() =~= all.take(taken));
            assert(rest@ =~= all.skip(taken + 1));
        }
        if is_named(args, &entry.1) {
            removed += 1;
        } else {
            config.repositories.push(entry);
        }
        proof {
            taken = taken + 1;
        }
    }
    assert(all.take(all.len() as int) =~= all);
    removed
}

} // verus!
