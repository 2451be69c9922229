//! The engine as mathematics: its state, and what each of its steps makes of
//! the state.
use vstd::prelude::*;

use crate::achievement::achievement::{
    disabled_everywhere, enabled_ids, set_enabled, Achievement, DiffAction, Rule,
};
use crate::cache::EntryCacheView;
use crate::git::{Commit, CommitId, TreeChange, WalkItem};

verus! {

/// The views of a sequence of rules.
pub open spec fn models<R: Rule>(rules: Seq<R>) -> Seq<R::V> {
    Seq::new(rules.len(), |i: int| rules[i]@)
}

/// The ids of the enabled descriptors of `rules`, rule by rule.
pub open spec fn enabled_rule_ids<R: Rule>(rules: Seq<R::V>) -> Seq<usize>
    decreases rules.len(),
{
    if rules.len() == 0 {
        Seq::empty()
    } else {
        enabled_rule_ids::<R>(rules.drop_last()) + enabled_ids(R::descriptors(rules.last()))
    }
}

/// Those of the ids in `previous` that are among `enabled`, in the order of
/// `previous`.
pub open spec fn covered(previous: Seq<usize>, enabled: Seq<usize>) -> Seq<usize>
    decreases previous.len(),
{
    if previous.len() == 0 {
        Seq::empty()
    } else if enabled.contains(previous.last()) {
        covered(previous.drop_last(), enabled).push(previous.last())
    } else {
        covered(previous.drop_last(), enabled)
    }
}

/// The rule `m` after `enabled` was set on its descriptors for each of `ids`
/// in turn.
pub open spec fn with_all<R: Rule>(m: R::V, ids: Seq<usize>, enabled: bool) -> R::V
    decreases ids.len(),
{
    if ids.len() == 0 {
        m
    } else {
        set_enabled::<R>(with_all::<R>(m, ids.drop_last(), enabled), ids.last(), enabled)
    }
}

/// Every rule of `rules` after `enabled` was set for each of `ids`.
pub open spec fn all_with<R: Rule>(rules: Seq<R::V>, ids: Seq<usize>, enabled: bool) -> Seq<R::V> {
    Seq::new(rules.len(), |i: int| with_all::<R>(rules[i], ids, enabled))
}

/// What the first `n` of `rules` grant, one after the other, where `grant`
/// says what one rule grants.
pub open spec fn grants_of<M>(rules: Seq<M>, grant: spec_fn(M) -> Seq<Achievement>, n: int) -> Seq<
    Achievement,
>
    decreases n,
{
    if n <= 0 {
        Seq::empty()
    } else {
        grants_of(rules, grant, n - 1) + grant(rules[n - 1])
    }
}

/// The state of the engine.
#[verifier::ext_equal]
pub struct EngineView<M> {
    /// The active rules, in catalog order.
    pub rules: Seq<M>,
    /// For each active rule, whether it still takes changes of the commit at
    /// hand.
    pub interest: Seq<bool>,
    /// The achievements granted and not yet handed out.
    pub pending: Seq<Achievement>,
    pub has_finalized: bool,
    pub cache: EntryCacheView,
    /// The first commit of the walk, once one was seen.
    pub first_commit: Option<CommitId>,
    /// The ids that were disabled where the previous run began, to be
    /// enabled again before the rules are finalized.
    pub suppressed: Seq<usize>,
    /// The ids of the rules that were finalized early and left: the record
    /// of the run holds them as it holds the ids of the rules that stayed.
    pub departed: Seq<usize>,
    /// Whether the summary of this run is still to be given.
    pub summary_due: bool,
    /// Whether a commit was begun and not ended yet.
    pub in_commit: bool,
    pub num_commits_processed: u64,
    pub num_achievements_generated: u64,
}

/// The rules after the suppressed ids were enabled again and every rule was
/// finalized, and what the rules granted then, in catalog order.
pub open spec fn finalize_all_spec<R: Rule>(s: EngineView<R::V>) -> (
    EngineView<R::V>,
    Seq<Achievement>,
) {
    let restored = all_with::<R>(s.rules, s.suppressed, true);
    (
        EngineView {
            rules: Seq::new(restored.len(), |i: int| R::finalize_spec(restored[i]).0),
            ..s
        },
        grants_of(restored, |m: R::V| R::finalize_spec(m).1, restored.len() as int),
    )
}

/// What becomes of one rule where the walk reaches the commit at which the
/// previous run began, and other rules have work left. A rule with no
/// enabled descriptor has none: its suppressed ids are enabled, it is
/// finalized, and they are disabled again. Any other rule stays as it is.
pub open spec fn prefinalize<R: Rule>(m: R::V, suppressed: Seq<usize>) -> (R::V, Seq<Achievement>) {
    if disabled_everywhere(R::descriptors(m)) {
        let done = R::finalize_spec(with_all::<R>(m, suppressed, true));
        (with_all::<R>(done.0, suppressed, false), done.1)
    } else {
        (m, Seq::empty())
    }
}

/// The ids that leave with the rules that are finalized early: for each rule
/// without an enabled descriptor, in order, the ids that it has enabled once
/// the suppressed ids are enabled again.
pub open spec fn leaving_ids<R: Rule>(rules: Seq<R::V>, suppressed: Seq<usize>) -> Seq<usize>
    decreases rules.len(),
{
    if rules.len() == 0 {
        Seq::empty()
    } else if disabled_everywhere(R::descriptors(rules.last())) {
        leaving_ids::<R>(rules.drop_last(), suppressed) + enabled_ids(
            R::descriptors(with_all::<R>(rules.last(), suppressed, true)),
        )
    } else {
        leaving_ids::<R>(rules.drop_last(), suppressed)
    }
}

/// Those of `rules` that have an enabled descriptor, in order.
pub open spec fn retained<R: Rule>(rules: Seq<R::V>) -> Seq<R::V>
    decreases rules.len(),
{
    if rules.len() == 0 {
        Seq::empty()
    } else if disabled_everywhere(R::descriptors(rules.last())) {
        retained::<R>(rules.drop_last())
    } else {
        retained::<R>(rules.drop_last()).push(rules.last())
    }
}

/// What the engine decides when the walk yields the commit `oid`, before any
/// rule sees it: the state after, the achievements that rules granted on
/// being finalized, and whether the commit is to be processed.
///
/// The first commit of the walk is remembered. Where `oid` is the commit at
/// which the previous run began, every enabled id that the previous run
/// covered is suppressed. If no enabled id is left, all rules are finalized
/// and the walk ends. Otherwise the rules without an enabled descriptor are
/// finalized and leave, and the others go on; the ids of those that leave
/// are kept for the record.
pub open spec fn early_exit_spec<R: Rule>(s: EngineView<R::V>, oid: CommitId) -> (
    EngineView<R::V>,
    Seq<Achievement>,
    bool,
) {
    let seen = EngineView {
        first_commit: if s.first_commit is None {
            Some(oid)
        } else {
            s.first_commit
        },
        ..s
    };
    if s.cache.last_processed_commit != Some(oid) {
        (seen, Seq::empty(), true)
    } else {
        let hit = covered(s.cache.last_processed_rules, enabled_rule_ids::<R>(s.rules));
        let suppressed = s.suppressed + hit;
        let quiet = all_with::<R>(s.rules, hit, false);
        if enabled_rule_ids::<R>(quiet).len() == 0 {
            let done = finalize_all_spec::<R>(
                EngineView { rules: quiet, suppressed, has_finalized: true, ..seen },
            );
            (done.0, done.1, false)
        } else {
            let early = Seq::new(quiet.len(), |i: int| prefinalize::<R>(quiet[i], suppressed).0);
            let kept = retained::<R>(early);
            (
                EngineView {
                    rules: kept,
                    interest: Seq::new(kept.len(), |i: int| R::interested(kept[i])),
                    suppressed,
                    departed: s.departed + leaving_ids::<R>(quiet, suppressed),
                    ..seen
                },
                grants_of(quiet, |m: R::V| prefinalize::<R>(m, suppressed).1, quiet.len() as int),
                true,
            )
        }
    }
}

/// The rules after the diff of `commit` began: each rule that wants the
/// changes of commits was told so.
pub open spec fn diff_started<R: Rule>(rules: Seq<R::V>, commit: Commit) -> Seq<R::V> {
    Seq::new(
        rules.len(),
        |i: int|
            if R::interested(rules[i]) {
                R::diff_start_spec(rules[i], commit)
            } else {
                rules[i]
            },
    )
}

/// For each rule, whether it wants the changes of commits.
pub open spec fn interests<R: Rule>(rules: Seq<R::V>) -> Seq<bool> {
    Seq::new(rules.len(), |i: int| R::interested(rules[i]))
}

/// The rules and their interest flags after one change was shown to each
/// rule whose flag was set. The flag of a rule that cancels is cleared.
pub open spec fn change_dispatched<R: Rule>(
    rules: Seq<R::V>,
    interest: Seq<bool>,
    commit: Commit,
    change: TreeChange,
) -> (Seq<R::V>, Seq<bool>) {
    (
        Seq::new(
            rules.len(),
            |i: int|
                if interest[i] {
                    R::diff_change_spec(rules[i], commit, change).0
                } else {
                    rules[i]
                },
        ),
        Seq::new(
            rules.len(),
            |i: int|
                interest[i] && R::diff_change_spec(rules[i], commit, change).1
                    == DiffAction::Continue,
        ),
    )
}

/// Whether no interest flag is set.
pub open spec fn none_interested(interest: Seq<bool>) -> bool {
    forall|i: int| 0 <= i < interest.len() ==> !interest[i]
}

/// The rules and their interest flags after the changes from `from` on were
/// dispatched in turn, up to and with the first one after which no flag was
/// set.
pub open spec fn changes_dispatched<R: Rule>(
    rules: Seq<R::V>,
    interest: Seq<bool>,
    commit: Commit,
    changes: Seq<TreeChange>,
    from: int,
) -> (Seq<R::V>, Seq<bool>)
    decreases changes.len() - from,
{
    if from < 0 || from >= changes.len() {
        (rules, interest)
    } else {
        let next = change_dispatched::<R>(rules, interest, commit, changes[from]);
        if none_interested(next.1) {
            next
        } else {
            changes_dispatched::<R>(next.0, next.1, commit, changes, from + 1)
        }
    }
}

/// What one rule grants when the diff of `commit` ends: nothing, unless it
/// wants the changes of commits.
pub open spec fn diff_end_grant<R: Rule>(m: R::V, commit: Commit) -> Seq<Achievement> {
    if R::interested(m) {
        R::diff_end_spec(m, commit).1
    } else {
        Seq::empty()
    }
}

/// The rules after the diff of `commit` ended.
pub open spec fn diff_ended<R: Rule>(rules: Seq<R::V>, commit: Commit) -> Seq<R::V> {
    Seq::new(
        rules.len(),
        |i: int|
            if R::interested(rules[i]) {
                R::diff_end_spec(rules[i], commit).0
            } else {
                rules[i]
            },
    )
}

/// The rules and interest flags after the changes of `commit` were
/// dispatched. A merge has none dispatched.
pub open spec fn diff_dispatched<R: Rule>(
    rules: Seq<R::V>,
    commit: Commit,
    changes: Seq<TreeChange>,
) -> (Seq<R::V>, Seq<bool>) {
    let started = diff_started::<R>(rules, commit);
    if commit.parents@.len() >= 2 {
        (started, interests::<R>(rules))
    } else {
        changes_dispatched::<R>(started, interests::<R>(rules), commit, changes, 0)
    }
}

/// The engine after the diff of `commit`, and what the rules granted at its
/// end.
///
/// The rules that want changes are told that the diff begins. Unless the
/// commit is a merge, the changes are dispatched until none is left or every
/// rule has cancelled. Then the rules that want changes are told that the
/// diff ended.
pub open spec fn diff_spec<R: Rule>(
    s: EngineView<R::V>,
    commit: Commit,
    changes: Seq<TreeChange>,
) -> (EngineView<R::V>, Seq<Achievement>) {
    let shown = diff_dispatched::<R>(s.rules, commit, changes);
    (
        EngineView { rules: diff_ended::<R>(shown.0, commit), interest: shown.1, ..s },
        grants_of(shown.0, |m: R::V| diff_end_grant::<R>(m, commit), shown.0.len() as int),
    )
}

/// The engine after the walk yielded `commit`, and what was granted for it.
///
/// First comes what [`early_exit_spec`] decides. If the walk goes on, the
/// commit is counted, every rule processes it, and its diff is run. The
/// grants come in this order: those of rules finalized early, those of
/// `process`, those of the end of the diff; each in catalog order.
pub open spec fn process_commit_spec<R: Rule>(
    s: EngineView<R::V>,
    commit: Commit,
    changes: Seq<TreeChange>,
) -> (EngineView<R::V>, Seq<Achievement>) {
    let early = early_exit_spec::<R>(s, commit.id);
    if !early.2 {
        (early.0, early.1)
    } else {
        let counted: u64 = if early.0.num_commits_processed < u64::MAX {
            (early.0.num_commits_processed + 1) as u64
        } else {
            early.0.num_commits_processed
        };
        let processed = Seq::new(
            early.0.rules.len(),
            |i: int| R::process_spec(early.0.rules[i], commit).0,
        );
        let diffed = diff_spec::<R>(
            EngineView { rules: processed, num_commits_processed: counted, ..early.0 },
            commit,
            changes,
        );
        (
            diffed.0,
            early.1 + grants_of(
                early.0.rules,
                |m: R::V| R::process_spec(m, commit).1,
                early.0.rules.len() as int,
            ) + diffed.1,
        )
    }
}

/// The engine after a commit was begun: what [`early_exit_spec`] decides
/// was done, and if the walk goes on, the commit was counted, every rule
/// processed it, and the rules that want changes were told that its diff
/// begins. What was granted so far is pending.
///
/// An engine whose rules were finalized begins no commit, nor does one that
/// is within a commit.
pub open spec fn commit_begun<R: Rule>(s: EngineView<R::V>, commit: Commit) -> EngineView<R::V> {
    if s.has_finalized || s.in_commit {
        s
    } else {
        let early = early_exit_spec::<R>(s, commit.id);
        if !early.2 {
            EngineView { pending: early.0.pending + early.1, ..early.0 }
        } else {
            let processed = Seq::new(
                early.0.rules.len(),
                |i: int| R::process_spec(early.0.rules[i], commit).0,
            );
            EngineView {
                rules: diff_started::<R>(processed, commit),
                interest: interests::<R>(processed),
                pending: early.0.pending + early.1 + grants_of(
                    early.0.rules,
                    |m: R::V| R::process_spec(m, commit).1,
                    early.0.rules.len() as int,
                ),
                in_commit: true,
                num_commits_processed: counted(early.0.num_commits_processed),
                ..early.0
            }
        }
    }
}

/// Whether the engine wants the changes of the commit that was begun: it
/// does unless the commit is a merge, or no rule wants changes.
pub open spec fn wants_changes<M>(s: EngineView<M>, commit: Commit) -> bool {
    s.in_commit && commit.parents@.len() < 2 && !none_interested(s.interest)
}

/// The engine after one change of the commit that was begun was shown to
/// it, and whether it wants more. Outside a commit, and within a merge, no
/// change is shown to any rule.
pub open spec fn change_shown<R: Rule>(s: EngineView<R::V>, commit: Commit, change: TreeChange) -> (
    EngineView<R::V>,
    DiffAction,
) {
    if !s.in_commit || commit.parents@.len() >= 2 {
        (s, DiffAction::Cancel)
    } else {
        let shown = change_dispatched::<R>(s.rules, s.interest, commit, change);
        (
            EngineView { rules: shown.0, interest: shown.1, ..s },
            if none_interested(shown.1) {
                DiffAction::Cancel
            } else {
                DiffAction::Continue
            },
        )
    }
}

/// The engine after the changes from `from` on were shown to it in turn, up
/// to and with the first one after which it wanted no more.
pub open spec fn changes_shown<R: Rule>(
    s: EngineView<R::V>,
    commit: Commit,
    changes: Seq<TreeChange>,
    from: int,
) -> EngineView<R::V>
    decreases changes.len() - from,
{
    if from < 0 || from >= changes.len() {
        s
    } else {
        let next = change_shown::<R>(s, commit, changes[from]);
        if next.1 == DiffAction::Cancel {
            next.0
        } else {
            changes_shown::<R>(next.0, commit, changes, from + 1)
        }
    }
}

/// The engine after the commit that was begun was ended: the rules that
/// want changes were told that the diff ended, and what they granted is
/// pending.
pub open spec fn commit_ended<R: Rule>(s: EngineView<R::V>, commit: Commit) -> EngineView<R::V> {
    if !s.in_commit {
        s
    } else {
        EngineView {
            rules: diff_ended::<R>(s.rules, commit),
            pending: s.pending + grants_of(
                s.rules,
                |m: R::V| diff_end_grant::<R>(m, commit),
                s.rules.len() as int,
            ),
            in_commit: false,
            ..s
        }
    }
}

/// The counters of a run, given once when it ends.
#[derive(Clone, Copy, Debug)]
pub struct RunSummary {
    pub num_commits_processed: u64,
    pub num_achievements_generated: u64,
}

/// What a step of the engine comes to.
#[derive(Clone, Copy, Debug)]
pub enum Step {
    /// An achievement was granted.
    Granted(Achievement),
    /// The engine needs the next commit of the walk, or to be told that the
    /// walk has ended.
    NeedsCommit,
    /// The run is over and the record is written. The first such step
    /// carries the summary of the run.
    Finished(Option<RunSummary>),
}

/// `n + 1`, or `n` where that does not fit.
pub open spec fn counted(n: u64) -> u64 {
    if n < u64::MAX {
        (n + 1) as u64
    } else {
        n
    }
}

/// The record after the first `n` of `rules` left in it what the next run
/// needs of them.
pub open spec fn fini_all<R: Rule>(
    rules: Seq<R::V>,
    cache: EntryCacheView,
    n: int,
) -> EntryCacheView
    decreases n,
{
    if n <= 0 {
        cache
    } else {
        R::fini_cache_spec(rules[n - 1], fini_all::<R>(rules, cache, n - 1))
    }
}

/// The record that a run leaves: the first commit of its walk, the ids of
/// the rules that left early and the ids that are enabled at its end, and
/// what each rule adds.
pub open spec fn stamped<R: Rule>(s: EngineView<R::V>) -> EntryCacheView {
    fini_all::<R>(
        s.rules,
        EntryCacheView {
            last_processed_commit: s.first_commit,
            last_processed_rules: s.departed + enabled_rule_ids::<R>(s.rules),
            ..s.cache
        },
        s.rules.len() as int,
    )
}

/// One step of the engine.
///
/// An achievement that is pending is handed out. With none pending, the
/// engine asks for the next commit until the rules were finalized. After
/// that the record is stamped and the run is over.
pub open spec fn next_spec<R: Rule>(s: EngineView<R::V>) -> (EngineView<R::V>, Step) {
    if s.pending.len() > 0 {
        (
            EngineView {
                pending: s.pending.skip(1),
                num_achievements_generated: counted(s.num_achievements_generated),
                ..s
            },
            Step::Granted(s.pending[0]),
        )
    } else if !s.has_finalized {
        (s, Step::NeedsCommit)
    } else {
        (
            EngineView { cache: stamped::<R>(s), summary_due: false, ..s },
            Step::Finished(
                if s.summary_due {
                    Some(
                        RunSummary {
                            num_commits_processed: s.num_commits_processed,
                            num_achievements_generated: s.num_achievements_generated,
                        },
                    )
                } else {
                    None
                },
            ),
        )
    }
}

/// The engine after it was given the next commit of the walk with all its
/// changes: what is granted for the commit is pending. An engine whose rules
/// were finalized takes no more commits, nor does one that is within a
/// commit.
pub open spec fn commit_fed<R: Rule>(s: EngineView<R::V>, item: WalkItem) -> EngineView<R::V> {
    if s.has_finalized || s.in_commit {
        s
    } else {
        let done = process_commit_spec::<R>(s, item.commit, item.changes@);
        EngineView { pending: done.0.pending + done.1, ..done.0 }
    }
}

/// The engine after it was told that the walk has ended: the rules are
/// finalized, unless they were before, and what they grant is pending. A
/// commit that was begun and not ended is given up.
pub open spec fn walk_ended<R: Rule>(s: EngineView<R::V>) -> EngineView<R::V> {
    if s.has_finalized {
        s
    } else {
        let done = finalize_all_spec::<R>(s);
        EngineView {
            pending: done.0.pending + done.1,
            has_finalized: true,
            in_commit: false,
            ..done.0
        }
    }
}

/// The engine stepped until the run is over, with the commits of `walk` from
/// `pos` on given to it as it asks for them: the state at the end, and the
/// achievements handed out, in order.
pub open spec fn drained<R: Rule>(s: EngineView<R::V>, walk: Seq<WalkItem>, pos: int) -> (
    EngineView<R::V>,
    Seq<Achievement>,
)
    decreases
            walk.len() - pos,
            (if s.has_finalized {
                0int
            } else {
                1int
            }),
            s.pending.len(),
{
    let stepped = next_spec::<R>(s);
    match stepped.1 {
        Step::Granted(a) => {
            let rest = drained::<R>(stepped.0, walk, pos);
            (rest.0, seq![a] + rest.1)
        },
        Step::NeedsCommit => {
            if 0 <= pos < walk.len() {
                drained::<R>(commit_fed::<R>(stepped.0, walk[pos]), walk, pos + 1)
            } else {
                drained::<R>(walk_ended::<R>(stepped.0), walk, pos)
            }
        },
        Step::Finished(_) => (stepped.0, Seq::empty()),
    }
}

/// The first `depth` items of `walk`, or all of them where no depth is given.
pub open spec fn capped(walk: Seq<WalkItem>, depth: Option<usize>) -> Seq<WalkItem> {
    match depth {
        Some(d) => if d < walk.len() {
            walk.take(d as int)
        } else {
            walk
        },
        None => walk,
    }
}

/// A whole run: the engine is set up over `rules` and `cache`, and stepped
/// until it is over on the commits of `walk`.
pub open spec fn run_spec<R: Rule>(
    rules: Seq<R::V>,
    cache: EntryCacheView,
    walk: Seq<WalkItem>,
) -> (EngineView<R::V>, Seq<Achievement>) {
    drained::<R>(initial_state::<R>(rules, cache), walk, 0)
}

/// The state in which an engine starts: each rule took from the record what
/// the last run left it.
pub open spec fn initial_state<R: Rule>(rules: Seq<R::V>, cache: EntryCacheView) -> EngineView<
    R::V,
> {
    let started = Seq::new(rules.len(), |i: int| R::init_cache_spec(rules[i], cache));
    EngineView {
        rules: started,
        interest: Seq::new(rules.len(), |i: int| R::interested(started[i])),
        pending: Seq::empty(),
        has_finalized: false,
        cache,
        first_commit: None,
        suppressed: Seq::empty(),
        departed: Seq::empty(),
        summary_due: true,
        in_commit: false,
        num_commits_processed: 0,
        num_achievements_generated: 0,
    }
}

/// The counters of an engine.
pub open spec fn summary_of<M>(s: EngineView<M>) -> RunSummary {
    RunSummary {
        num_commits_processed: s.num_commits_processed,
        num_achievements_generated: s.num_achievements_generated,
    }
}

} // verus!
