//! Checking a repository for achievements.
use std::time::Duration;

use vstd::prelude::*;

use crate::achievement::earned::{
    all_by_enabled, lemma_achievements_are_earned, lemma_earned_by_enabled,
};
use crate::achievement::rerun::lemma_rerun_grants_nothing;
use crate::achievement::{
    capped, initial_state, run_rules, run_spec, Achievement, BoundedRun, EngineView, RunSummary,
};
use crate::cache::{
    cache_key, record_of, recorded, EntryCache, EntryCacheView, GlobalCache,
};
use crate::cli::{CheckAllArgs, CheckArgs};
use crate::commands::fetch_all::{reference_name, reference_of, FetchStat};
use crate::config::Config;
use crate::git::WalkItem;
use crate::rules::catalog::{
    builtin_held, lemma_builtin_ids_tell_apart, lemma_builtin_rules_grant_honestly,
    lemma_builtin_rules_hold_nothing, lemma_builtin_rules_quiet_when_fresh,
};
use crate::rules::{
    builtin_rules, entries_of, rules_config_of, rules_of, BuiltinRule, BuiltinRuleView,
};
use crate::utils::keyed::{last_index_of, rfind_char};
use crate::utils::text::{chars_eq, chars_from, chars_of, string_from_chars};

verus! {

/// What checking one repository came to.
#[derive(Clone, Debug)]
pub struct CheckStat {
    pub name: String,
    pub num_commits_checked: u64,
    pub num_achievements_granted: u64,
    pub elapsed: Duration,
}

/// What fetching and checking one repository came to.
#[derive(Clone, Debug)]
pub struct CheckAllStat {
    pub name: String,
    /// `None` where the repository was not fetched, or was cloned anew.
    pub num_commits_fetched: Option<u64>,
    /// `None` where the repository was not fetched.
    pub fetch_duration: Option<Duration>,
    pub num_commits_checked: u64,
    pub num_achievements_granted: u64,
    pub check_duration: Duration,
}

/// The path without the `/`s at its end.
pub open spec fn without_trailing_slashes(path: Seq<char>) -> Seq<char>
    decreases path.len(),
{
    if path.len() > 0 && path.last() == '/' {
        without_trailing_slashes(path.drop_last())
    } else {
        path
    }
}

/// The name of what a path leads to: what stands behind its last `/`, the
/// `/`s at its end aside. It is empty where that is nothing, `.` or `..`.
pub open spec fn file_name_of(path: Seq<char>) -> Seq<char> {
    let trimmed = without_trailing_slashes(path);
    let name = trimmed.skip(last_index_of(trimmed, '/') + 1);
    if name == seq!['.'] || name == seq!['.', '.'] {
        Seq::empty()
    } else {
        name
    }
}

/// The name of the repository at a path: the name of what the path leads to.
pub fn repository_name_of_path(path: &str) -> (name: String)
    ensures
        name@ == file_name_of(path@),
{
    let mut chars = chars_of(path);
    while chars.len() > 0 && chars[chars.len() - 1] == '/'
        invariant
            without_trailing_slashes(chars@) == without_trailing_slashes(path@),
        decreases chars@.len(),
    {
        let ghost before = chars@;
        chars.pop();
        assert(chars@ =~= before.drop_last());
    }
    assert(without_trailing_slashes(chars@) == chars@);
    let ghost trimmed = chars@;
    let name = match rfind_char(&chars, '/') {
        Some(i) => chars_from(&chars, i + 1),
        None => {
            assert(chars@.skip(0) =~= chars@);
            chars
        },
    };
    assert(name@ == trimmed.skip(last_index_of(trimmed, '/') + 1));
    assert(trimmed == without_trailing_slashes(path@));
    let mut dot: Vec<char> = Vec::new();
    dot.push('.');
    assert(dot@ =~= seq!['.']);
    let mut dots: Vec<char> = Vec::new();
    dots.push('.');
    dots.push('.');
    assert(dots@ =~= seq!['.', '.']);
    if chars_eq(&name, &dot) || chars_eq(&name, &dots) {
        String::new()
    } else {
        string_from_chars(&name)
    }
}

/// Every achievement that a check grants goes to one of the commits that the
/// check looked at, under the name of a descriptor that is enabled, of a
/// rule that the configuration lets run.
pub proof fn lemma_checked_achievements_are_earned(
    config: Option<&Config>,
    cache: EntryCacheView,
    walk: Seq<WalkItem>,
    depth: Option<usize>,
)
    ensures
        all_by_enabled::<BuiltinRule>(
            check_spec(config, cache, walk, depth).1,
            rules_of(config),
            capped(walk, depth),
        ),
{
    lemma_builtin_rules_grant_honestly();
    lemma_builtin_rules_hold_nothing(
        rules_config_of(config),
        entries_of(rules_config_of(config).exclude),
        entries_of(rules_config_of(config).includes),
    );
    lemma_achievements_are_earned::<BuiltinRule>(
        rules_of(config),
        cache,
        capped(walk, depth),
        |m: BuiltinRuleView| builtin_held(m),
    );
    lemma_builtin_ids_tell_apart(
        rules_config_of(config),
        entries_of(rules_config_of(config).exclude),
        entries_of(rules_config_of(config).includes),
    );
    lemma_earned_by_enabled::<BuiltinRule>(
        check_spec(config, cache, walk, depth).1,
        rules_of(config),
        capped(walk, depth),
    );
}

/// A check that follows on a check of the same commits under the same
/// configuration grants nothing and looks at no commit, whatever the record
/// held before the first of the two.
pub proof fn lemma_check_twice_grants_nothing(
    config: Option<&Config>,
    cache: EntryCacheView,
    walk: Seq<WalkItem>,
    depth: Option<usize>,
)
    ensures
        check_spec(config, check_spec(config, cache, walk, depth).0.cache, walk, depth).1
            == Seq::<Achievement>::empty(),
        check_spec(
            config,
            check_spec(config, cache, walk, depth).0.cache,
            walk,
            depth,
        ).0.num_commits_processed == 0,
{
    lemma_builtin_rules_quiet_when_fresh(
        rules_config_of(config),
        entries_of(rules_config_of(config).exclude),
        entries_of(rules_config_of(config).includes),
    );
    lemma_rerun_grants_nothing::<BuiltinRule>(rules_of(config), cache, capped(walk, depth));
}

/// The run of the rules that the configuration lets run, over a walk.
pub open spec fn check_spec(
    config: Option<&Config>,
    cache: EntryCacheView,
    walk: Seq<WalkItem>,
    depth: Option<usize>,
) -> (EngineView<BuiltinRuleView>, Seq<Achievement>) {
    run_spec::<BuiltinRule>(rules_of(config), cache, capped(walk, depth))
}

/// A check that is stepped by whoever reads the repository: a run of the
/// rules that the configuration lets run, from the record of the previous
/// run, over at most `depth` commits where a depth is given.
///
/// [`check_impl`] steps such a run over commits that were read before; a
/// program that reads the commits as the run asks for them steps it
/// itself, and makes its report with [`check_stat`].
pub fn begin_check(config: Option<&Config>, record: EntryCache, depth: Option<usize>) -> (run:
    BoundedRun<BuiltinRule>)
    ensures
        run.wf(),
        run.engine@ == initial_state::<BuiltinRule>(rules_of(config), record@),
        run.commits_left == depth,
{
    BoundedRun::begin(record, builtin_rules(config), depth)
}

/// What a check came to, from the counters of its run.
pub fn check_stat(name: &str, summary: RunSummary, elapsed: Duration) -> (stat: CheckStat)
    ensures
        stat.name@ == name@,
        stat.num_commits_checked == summary.num_commits_processed,
        stat.num_achievements_granted == summary.num_achievements_generated,
        stat.elapsed == elapsed,
{
    CheckStat {
        name: name.to_owned(),
        num_commits_checked: summary.num_commits_processed,
        num_achievements_granted: summary.num_achievements_generated,
        elapsed,
    }
}

/// Checks the commits of `walk` for achievements, with the rules that the
/// configuration lets run and the record `cache` of the previous run.
/// Returns what it came to, under the name `name`, and the achievements.
///
/// `walk` holds the commits that the reference reaches, newest first;
/// `elapsed` is the time that the check is to be counted with.
pub fn check_impl(
    config: Option<&Config>,
    name: &str,
    walk: &Vec<WalkItem>,
    cache: &mut EntryCache,
    depth: Option<usize>,
    elapsed: Duration,
) -> (out: (CheckStat, Vec<Achievement>))
    ensures
        out.1@ == check_spec(config, old(cache)@, walk@, depth).1,
        final(cache)@ == check_spec(config, old(cache)@, walk@, depth).0.cache,
        out.0.name@ == name@,
        out.0.elapsed == elapsed,
        out.0.num_commits_checked == check_spec(
            config,
            old(cache)@,
            walk@,
            depth,
        ).0.num_commits_processed,
        out.0.num_achievements_granted == check_spec(
            config,
            old(cache)@,
            walk@,
            depth,
        ).0.num_achievements_generated,
{
    let rules = builtin_rules(config);
    let (achievements, summary) = run_rules(walk, cache, depth, rules);
    (check_stat(name, summary, elapsed), achievements)
}

/// Checks one repository and leaves no trace: the check starts from an empty
/// record, and the record that it leaves is dropped. The repository is named
/// after its path.
pub fn check(
    args: &CheckArgs,
    config: Option<&Config>,
    walk: &Vec<WalkItem>,
    elapsed: Duration,
) -> (out: (CheckStat, Vec<Achievement>))
    ensures
        out.1@ == check_spec(config, EntryCache::new_view(), walk@, args.depth).1,
        out.0.name@ == file_name_of(args.path@),
        out.0.elapsed == elapsed,
        out.0.num_commits_checked == check_spec(
            config,
            EntryCache::new_view(),
            walk@,
            args.depth,
        ).0.num_commits_processed,
        out.0.num_achievements_granted == check_spec(
            config,
            EntryCache::new_view(),
            walk@,
            args.depth,
        ).0.num_achievements_generated,
{
    let name = repository_name_of_path(args.path.as_str());
    let mut cache = EntryCache::new();
    check_impl(config, name.as_str(), walk, &mut cache, args.depth, elapsed)
}

/// The index of the last of `fetch` with the name `name`, or -1 where none
/// has it.
pub open spec fn fetch_of(fetch: Seq<FetchStat>, name: Seq<char>) -> int
    decreases fetch.len(),
{
    if fetch.len() == 0 {
        -1
    } else if fetch.last().name@ == name {
        fetch.len() - 1
    } else {
        fetch_of(fetch.drop_last(), name)
    }
}

/// Whether `stat` joins what checking a repository came to with what
/// fetching it came to, where it was fetched.
pub open spec fn merged(stat: CheckAllStat, fetch: Seq<FetchStat>, check: CheckStat) -> bool {
    &&& stat.name == check.name
    &&& stat.num_commits_checked == check.num_commits_checked
    &&& stat.num_achievements_granted == check.num_achievements_granted
    &&& stat.check_duration == check.elapsed
    &&& fetch_of(fetch, check.name@) < 0 ==> stat.num_commits_fetched is None
        && stat.fetch_duration is None
    &&& fetch_of(fetch, check.name@) >= 0 ==> stat.num_commits_fetched
        == fetch[fetch_of(fetch, check.name@)].num_commits_fetched && stat.fetch_duration == Some(
        fetch[fetch_of(fetch, check.name@)].elapsed,
    )
}

/// The last of `fetch` with the name `name`.
fn find_fetch<'a>(fetch: &'a Vec<FetchStat>, name: &Vec<char>) -> (found: Option<&'a FetchStat>)
    ensures
        found is Some == (fetch_of(fetch@, name@) >= 0),
        found matches Some(f) ==> *f == fetch@[fetch_of(fetch@, name@)],
{
    let mut n: usize = fetch.len();
    assert(fetch@.take(n as int) =~= fetch@);
    while n > 0
        invariant
            n <= fetch@.len(),
            fetch_of(fetch@, name@) == fetch_of(fetch@.take(n as int), name@),
        decreases n,
    {
        assert(fetch@.take(n as int).drop_last() =~= fetch@.take(n - 1));
        let candidate = chars_of(fetch[n - 1].name.as_str());
        if chars_eq(&candidate, name) {
            return Some(&fetch[n - 1]);
        }
        n -= 1;
    }
    None
}

/// Joins what checking the repositories came to with what fetching them
/// came to: one entry for each check, in the order of the checks, with the
/// last fetch of the same name.
pub fn merge_stats(fetch: Vec<FetchStat>, check: Vec<CheckStat>) -> (out: Vec<CheckAllStat>)
    ensures
        out@.len() == check@.len(),
        forall|i: int| 0 <= i < check@.len() ==> merged(#[trigger] out@[i], fetch@, check@[i]),
{
    let mut rest = check;
    let ghost all = rest@;
    let mut out: Vec<CheckAllStat> = Vec::new();
    while rest.len() > 0
        invariant
            out@.len() + rest@.len() == all.len(),
            rest@ == all.skip(out@.len() as int),
            forall|i: int| 0 <= i < out@.len() ==> merged(#[trigger] out@[i], fetch@, all[i]),
        decreases rest@.len(),
    {
        let ghost done = out@;
        let check_stat = rest.remove(0);
        assert(check_stat == all[done.len() as int]);
        let name = chars_of(check_stat.name.as_str());
        let fetch_stat = find_fetch(&fetch, &name);
        let stat = CheckAllStat {
            num_commits_fetched: match fetch_stat {
                Some(f) => f.num_commits_fetched,
                None => None,
            },
            fetch_duration: match fetch_stat {
                Some(f) => Some(f.elapsed),
                None => None,
            },
            name: check_stat.name,
            num_commits_checked: check_stat.num_commits_checked,
            num_achievements_granted: check_stat.num_achievements_granted,
            check_duration: check_stat.elapsed,
        };
        out.push(stat);
        assert(rest@ =~= all.skip(out@.len() as int));
        assert forall|i: int| 0 <= i < out@.len() implies merged(
            #[trigger] out@[i],
            fetch@,
            all[i],
        ) by {
            if i < done.len() {
                assert(out@[i] == done[i]);
            }
        }
    }
    out
}

/// What the program read of one repository of the configuration to check
/// it: the commits that its reference reaches, newest first, and the time
/// that the check is to be counted with.
#[derive(Clone, Debug)]
pub struct RepositoryWalk {
    pub items: Vec<WalkItem>,
    pub elapsed: Duration,
}

/// What checking a repository came to, with the name as text.
pub struct CheckOutcome {
    pub name: Seq<char>,
    pub num_commits_checked: u64,
    pub num_achievements_granted: u64,
    pub elapsed: Duration,
}

/// What checking the first `n` repositories of the configuration comes to:
/// for each repository that could be read, in order, what its check came to;
/// all achievements, repository by repository; and the records after.
///
/// A repository is checked at its reference, with the record of its name and
/// reference. A repository that could not be read is passed over.
pub open spec fn checked_all(
    config: &Config,
    depth: Option<usize>,
    walks: Seq<Option<RepositoryWalk>>,
    records: Seq<(Seq<char>, EntryCacheView)>,
    n: int,
) -> (Seq<CheckOutcome>, Seq<Achievement>, Seq<(Seq<char>, EntryCacheView)>)
    decreases n,
{
    if n <= 0 {
        (Seq::empty(), Seq::empty(), records)
    } else {
        let before = checked_all(config, depth, walks, records, n - 1);
        match walks[n - 1] {
            None => before,
            Some(walk) => {
                let name = config.repositories@[n - 1].0@;
                let key = cache_key(name, reference_of(config.repositories@[n - 1].1));
                let run = check_spec(Some(config), record_of(before.2, key), walk.items@, depth);
                (
                    before.0.push(
                        CheckOutcome {
                            name,
                            num_commits_checked: run.0.num_commits_processed,
                            num_achievements_granted: run.0.num_achievements_generated,
                            elapsed: walk.elapsed,
                        },
                    ),
                    before.1 + run.1,
                    recorded(before.2, key, run.0.cache),
                )
            },
        }
    }
}

/// Whether `stat` says what `outcome` says.
pub open spec fn reports(stat: CheckStat, outcome: CheckOutcome) -> bool {
    &&& stat.name@ == outcome.name
    &&& stat.num_commits_checked == outcome.num_commits_checked
    &&& stat.num_achievements_granted == outcome.num_achievements_granted
    &&& stat.elapsed == outcome.elapsed
}

/// Whether `stat` joins what `outcome` says with what fetching the
/// repository came to, where it was fetched.
pub open spec fn reports_all(
    stat: CheckAllStat,
    fetch: Seq<FetchStat>,
    outcome: CheckOutcome,
) -> bool {
    &&& stat.name@ == outcome.name
    &&& stat.num_commits_checked == outcome.num_commits_checked
    &&& stat.num_achievements_granted == outcome.num_achievements_granted
    &&& stat.check_duration == outcome.elapsed
    &&& fetch_of(fetch, outcome.name) < 0 ==> stat.num_commits_fetched is None
        && stat.fetch_duration is None
    &&& fetch_of(fetch, outcome.name) >= 0 ==> stat.num_commits_fetched
        == fetch[fetch_of(fetch, outcome.name)].num_commits_fetched && stat.fetch_duration == Some(
        fetch[fetch_of(fetch, outcome.name)].elapsed,
    )
}

/// How many repositories are checked: as many as the configuration holds,
/// as far as there are walks.
pub open spec fn checked_count(config: &Config, walks: Seq<Option<RepositoryWalk>>) -> int {
    if config.repositories@.len() <= walks.len() {
        config.repositories@.len() as int
    } else {
        walks.len() as int
    }
}

/// Checks every repository of the configuration, and joins what the checks
/// came to with what fetching the repositories came to.
///
/// `walks` holds, for each repository in the order of the configuration,
/// what was read of it, or `None` where it could not be read: such a
/// repository is passed over. The records of `cache` say where the previous
/// checks began; at the end they hold what these checks leave. Returns one
/// entry for each repository that was checked, and all achievements.
pub fn check_all(
    args: &CheckAllArgs,
    config: &Config,
    walks: &Vec<Option<RepositoryWalk>>,
    cache: &mut GlobalCache,
    fetch_stats: Vec<FetchStat>,
) -> (out: (Vec<CheckAllStat>, Vec<Achievement>))
    requires
        old(cache).wf(),
    ensures
        final(cache).wf(),
        final(cache).cache_path == old(cache).cache_path,
        final(cache).records() == checked_all(
            config,
            args.depth,
            walks@,
            old(cache).records(),
            checked_count(config, walks@),
        ).2,
        out.1@ == checked_all(
            config,
            args.depth,
            walks@,
            old(cache).records(),
            checked_count(config, walks@),
        ).1,
        out.0@.len() == checked_all(
            config,
            args.depth,
            walks@,
            old(cache).records(),
            checked_count(config, walks@),
        ).0.len(),
        forall|i: int|
            0 <= i < out.0@.len() ==> reports_all(
                #[trigger] out.0@[i],
                fetch_stats@,
                checked_all(
                    config,
                    args.depth,
                    walks@,
                    old(cache).records(),
                    checked_count(config, walks@),
                ).0[i],
            ),
{
    let ghost start = cache.records();
    let mut check_stats: Vec<CheckStat> = Vec::new();
    let mut achievements: Vec<Achievement> = Vec::new();
    let mut i: usize = 0;
    while i < config.repositories.len() && i < walks.len()
        invariant
            i <= config.repositories@.len(),
            i <= walks@.len(),
            cache.wf(),
            cache.cache_path == old(cache).cache_path,
            start == old(cache).records(),
            cache.records() == checked_all(config, args.depth, walks@, start, i as int).2,
            achievements@ == checked_all(config, args.depth, walks@, start, i as int).1,
            check_stats@.len() == checked_all(config, args.depth, walks@, start, i as int).0.len(),
            forall|k: int|
                0 <= k < check_stats@.len() ==> reports(
                    #[trigger] check_stats@[k],
                    checked_all(config, args.depth, walks@, start, i as int).0[k],
                ),
        decreases config.repositories@.len() - i,
    {
        let ghost before = checked_all(config, args.depth, walks@, start, i as int);
        let ghost done = check_stats@;
        if let Some(walk) = &walks[i] {
            let name = config.repositories[i].0.as_str();
            let reference = reference_name(&config.repositories[i].1);
            let entry = cache.get_entry_cache(name, reference.as_str());
            let (stat, mut new) = check_impl(
                Some(config),
                name,
                &walk.items,
                entry,
                args.depth,
                walk.elapsed,
            );
            check_stats.push(stat);
            achievements.append(&mut new);
            proof {
                let after = checked_all(config, args.depth, walks@, start, i + 1);
                assert forall|k: int| 0 <= k < check_stats@.len() implies reports(
                    #[trigger] check_stats@[k],
                    after.0[k],
                ) by {
                    if k < done.len() {
                        assert(check_stats@[k] == done[k]);
                        assert(after.0[k] == before.0[k]);
                    }
                }
            }
        }
        i += 1;
    }
    let ghost outcomes = checked_all(
        config,
        args.depth,
        walks@,
        start,
        checked_count(config, walks@),
    ).0;
    let ghost checks = check_stats@;
    let merged_stats = merge_stats(fetch_stats, check_stats);
    assert forall|k: int| 0 <= k < merged_stats@.len() implies reports_all(
        #[trigger] merged_stats@[k],
        fetch_stats@,
        outcomes[k],
    ) by {
        assert(merged(merged_stats@[k], fetch_stats@, checks[k]));
        assert(reports(checks[k], outcomes[k]));
    }
    (merged_stats, achievements)
}

} // verus!
