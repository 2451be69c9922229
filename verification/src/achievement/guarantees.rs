//! What holds of every run of the engine.
use vstd::prelude::*;

use crate::achievement::achievement::{
    disabled_everywhere, enabled_ids, toggled, Achievement, AchievementDescriptor, DiffAction,
    Rule,
};
use crate::achievement::model::{
    all_with, change_dispatched, change_shown, changes_dispatched, changes_shown, commit_begun,
    commit_ended, commit_fed, covered, diff_dispatched, diff_ended, diff_spec, diff_started,
    drained, early_exit_spec, enabled_rule_ids, grants_of, initial_state, interests, next_spec,
    none_interested, process_commit_spec, retained, run_spec, walk_ended, with_all, EngineView,
    Step,
};
use crate::cache::EntryCacheView;
use crate::git::{Commit, TreeChange, WalkItem};

verus! {

/// An engine without rules and with nothing pending has no rules and
/// nothing pending when the walk has ended.
proof fn lemma_walk_ends_without_rules<R: Rule>(s: EngineView<R::V>)
    requires
        s.rules.len() == 0,
        s.pending.len() == 0,
    ensures
        walk_ended::<R>(s).rules.len() == 0,
        walk_ended::<R>(s).pending.len() == 0,
{
}

/// An engine without rules and with nothing pending has no rules and
/// nothing pending after a commit.
proof fn lemma_commit_without_rules<R: Rule>(s: EngineView<R::V>, item: WalkItem)
    requires
        s.rules.len() == 0,
        s.pending.len() == 0,
    ensures
        commit_fed::<R>(s, item).rules.len() == 0,
        commit_fed::<R>(s, item).pending.len() == 0,
{
    assert(enabled_rule_ids::<R>(s.rules) =~= Seq::empty());
    let hit = covered(s.cache.last_processed_rules, enabled_rule_ids::<R>(s.rules));
    let quiet = all_with::<R>(s.rules, hit, false);
    assert(quiet.len() == 0);
    assert(enabled_rule_ids::<R>(quiet) =~= Seq::empty());
    let early = early_exit_spec::<R>(s, item.commit.id);
    assert(early.0.rules.len() == 0);
    assert(early.1.len() == 0);
    if early.2 {
        let done = process_commit_spec::<R>(s, item.commit, item.changes@);
        assert(done.0.rules.len() == 0);
        assert(done.1.len() == 0);
    }
}

/// An engine without rules and with nothing pending hands out nothing until
/// its run is over.
pub proof fn lemma_drained_without_rules<R: Rule>(
    s: EngineView<R::V>,
    walk: Seq<WalkItem>,
    pos: int,
)
    requires
        s.rules.len() == 0,
        s.pending.len() == 0,
    ensures
        drained::<R>(s, walk, pos).1 == Seq::<Achievement>::empty(),
    decreases
            walk.len() - pos,
            (if s.has_finalized {
                0int
            } else {
                1int
            }),
            s.pending.len(),
{
    let stepped = next_spec::<R>(s);
    match stepped.1 {
        Step::Granted(a) => {},
        Step::NeedsCommit => {
            if 0 <= pos < walk.len() {
                lemma_commit_without_rules::<R>(s, walk[pos]);
                lemma_drained_without_rules::<R>(commit_fed::<R>(s, walk[pos]), walk, pos + 1);
            } else {
                lemma_walk_ends_without_rules::<R>(s);
                lemma_drained_without_rules::<R>(walk_ended::<R>(s), walk, pos);
            }
        },
        Step::Finished(_) => {},
    }
}

/// A run without rules grants no achievement, whatever the walk and the
/// record hold.
pub proof fn lemma_empty_rule_set_grants_nothing<R: Rule>(
    cache: EntryCacheView,
    walk: Seq<WalkItem>,
)
    ensures
        run_spec::<R>(Seq::empty(), cache, walk).1 == Seq::<Achievement>::empty(),
{
    let s = initial_state::<R>(Seq::empty(), cache);
    lemma_drained_without_rules::<R>(s, walk, 0);
}

/// No change of a merge is shown to any rule: the rules that want changes
/// are told that the diff of the merge begins and that it ends, and nothing
/// between. Whatever changes come with the merge, what becomes of the engine
/// and what is granted is the same.
pub proof fn lemma_merge_shows_no_change<R: Rule>(
    s: EngineView<R::V>,
    commit: Commit,
    changes: Seq<TreeChange>,
    other: Seq<TreeChange>,
)
    requires
        commit.parents@.len() >= 2,
    ensures
        diff_dispatched::<R>(s.rules, commit, changes) == (
            diff_started::<R>(s.rules, commit),
            interests::<R>(s.rules),
        ),
        diff_spec::<R>(s, commit, changes).0.rules == diff_ended::<R>(
            diff_started::<R>(s.rules, commit),
            commit,
        ),
        diff_spec::<R>(s, commit, changes) == diff_spec::<R>(s, commit, other),
        process_commit_spec::<R>(s, commit, changes) == process_commit_spec::<R>(s, commit, other),
        forall|change: TreeChange| #[trigger]
            change_shown::<R>(s, commit, change) == (s, DiffAction::Cancel),
        changes_shown::<R>(s, commit, changes, 0) == s,
{
}

/// Showing the changes of a commit with one parent at most to an engine
/// that is within the commit dispatches them to its rules.
proof fn lemma_changes_shown<R: Rule>(
    s: EngineView<R::V>,
    commit: Commit,
    changes: Seq<TreeChange>,
    from: int,
)
    requires
        s.in_commit,
        commit.parents@.len() < 2,
    ensures
        changes_shown::<R>(s, commit, changes, from) == (EngineView {
            rules: changes_dispatched::<R>(s.rules, s.interest, commit, changes, from).0,
            interest: changes_dispatched::<R>(s.rules, s.interest, commit, changes, from).1,
            ..s
        }),
    decreases changes.len() - from,
{
    if from < 0 || from >= changes.len() {
    } else {
        let next = change_shown::<R>(s, commit, changes[from]);
        if next.1 != DiffAction::Cancel {
            lemma_changes_shown::<R>(next.0, commit, changes, from + 1);
        }
    }
}

/// No change is shown to an engine that is not within a commit, and none of
/// a merge.
proof fn lemma_no_changes_shown<R: Rule>(
    s: EngineView<R::V>,
    commit: Commit,
    changes: Seq<TreeChange>,
    from: int,
)
    requires
        !s.in_commit || commit.parents@.len() >= 2,
    ensures
        changes_shown::<R>(s, commit, changes, from) == s,
{
}

/// Giving the engine a commit with all its changes comes to the same as
/// beginning the commit, showing its changes until no more are wanted, and
/// ending it.
pub proof fn lemma_commit_in_phases<R: Rule>(s: EngineView<R::V>, item: WalkItem)
    requires
        !s.in_commit,
    ensures
        commit_fed::<R>(s, item) == commit_ended::<R>(
            changes_shown::<R>(commit_begun::<R>(s, item.commit), item.commit, item.changes@, 0),
            item.commit,
        ),
{
    let commit = item.commit;
    let changes = item.changes@;
    let begun = commit_begun::<R>(s, commit);
    if s.has_finalized {
        lemma_no_changes_shown::<R>(begun, commit, changes, 0);
    } else {
        let early = early_exit_spec::<R>(s, commit.id);
        if !early.2 {
            lemma_no_changes_shown::<R>(begun, commit, changes, 0);
        } else {
            if commit.parents@.len() >= 2 {
                lemma_no_changes_shown::<R>(begun, commit, changes, 0);
            } else {
                lemma_changes_shown::<R>(begun, commit, changes, 0);
            }
            let shown = changes_shown::<R>(begun, commit, changes, 0);
            let ended = commit_ended::<R>(shown, commit);
            let fed = commit_fed::<R>(s, item);
            assert(ended.pending =~= fed.pending);
            assert(ended =~= fed);
        }
    }
}

/// The descriptors `ds` after `enabled` was set for each of `ids` in turn.
pub open spec fn toggled_all(ds: Seq<AchievementDescriptor>, ids: Seq<usize>, enabled: bool) -> Seq<
    AchievementDescriptor,
>
    decreases ids.len(),
{
    if ids.len() == 0 {
        ds
    } else {
        toggled(toggled_all(ds, ids.drop_last(), enabled), ids.last(), enabled)
    }
}

/// Setting `enabled` for ids changes the descriptors of a rule as
/// [`toggled_all`] says, and nothing else of the rule.
pub proof fn lemma_with_all<R: Rule>(m: R::V, ids: Seq<usize>, enabled: bool)
    ensures
        with_all::<R>(m, ids, enabled) == R::with_descriptors(
            m,
            toggled_all(R::descriptors(m), ids, enabled),
        ),
        R::descriptors(with_all::<R>(m, ids, enabled)) == toggled_all(
            R::descriptors(m),
            ids,
            enabled,
        ),
        R::interested(with_all::<R>(m, ids, enabled)) == R::interested(m),
    decreases ids.len(),
{
    let ds = R::descriptors(m);
    if ids.len() == 0 {
        R::lemma_with_descriptors(m, ds, ds);
    } else {
        let before = toggled_all(ds, ids.drop_last(), enabled);
        let after = toggled(before, ids.last(), enabled);
        lemma_with_all::<R>(m, ids.drop_last(), enabled);
        R::lemma_with_descriptors(m, before, after);
        R::lemma_with_descriptors(m, after, after);
    }
}

/// What setting `enabled` for ids does to each descriptor: one whose id is
/// among the ids has the flag set, any other stays as it is.
pub proof fn lemma_toggled_all(ds: Seq<AchievementDescriptor>, ids: Seq<usize>, enabled: bool)
    ensures
        toggled_all(ds, ids, enabled).len() == ds.len(),
        forall|j: int|
            0 <= j < ds.len() ==> #[trigger] toggled_all(ds, ids, enabled)[j] == if ids.contains(
                ds[j].id,
            ) {
                AchievementDescriptor { enabled, ..ds[j] }
            } else {
                ds[j]
            },
    decreases ids.len(),
{
    if ids.len() > 0 {
        let front = ids.drop_last();
        lemma_toggled_all(ds, front, enabled);
        assert forall|j: int| 0 <= j < ds.len() implies #[trigger] toggled_all(ds, ids, enabled)[j]
            == if ids.contains(ds[j].id) {
            AchievementDescriptor { enabled, ..ds[j] }
        } else {
            ds[j]
        } by {
            let id = ds[j].id;
            if ids.contains(id) {
                if front.contains(id) {
                } else {
                    let k = choose|k: int| 0 <= k < ids.len() && ids[k] == id;
                    if k < front.len() {
                        assert(front[k] == id);
                    }
                    assert(ids.last() == id);
                }
            } else {
                if front.contains(id) {
                    let k = choose|k: int| 0 <= k < front.len() && front[k] == id;
                    assert(ids[k] == id);
                }
                assert(ids.last() != id) by {
                    if ids.last() == id {
                        assert(ids[ids.len() - 1] == id);
                    }
                };
            }
        }
    }
}

/// An id is among the enabled ids of descriptors just where one of them is
/// enabled and has the id.
pub proof fn lemma_enabled_ids(ds: Seq<AchievementDescriptor>)
    ensures
        forall|id: usize|
            #[trigger] enabled_ids(ds).contains(id) <==> exists|j: int|
                0 <= j < ds.len() && (#[trigger] ds[j]).enabled && ds[j].id == id,
        enabled_ids(ds).len() == 0 <==> disabled_everywhere(ds),
    decreases ds.len(),
{
    if ds.len() == 0 {
    } else {
        let front = ds.drop_last();
        lemma_enabled_ids(front);
        assert forall|id: usize| #[trigger]
            enabled_ids(ds).contains(id) <==> exists|j: int|
                0 <= j < ds.len() && (#[trigger] ds[j]).enabled && ds[j].id == id by {
            if enabled_ids(ds).contains(id) {
                let k = choose|k: int| 0 <= k < enabled_ids(ds).len() && enabled_ids(ds)[k] == id;
                if ds.last().enabled && k == enabled_ids(front).len() {
                    assert(ds[ds.len() - 1].enabled && ds[ds.len() - 1].id == id);
                } else {
                    assert(enabled_ids(front)[k] == id);
                    assert(enabled_ids(front).contains(id));
                    let j = choose|j: int|
                        0 <= j < front.len() && (#[trigger] front[j]).enabled && front[j].id == id;
                    assert(ds[j].enabled && ds[j].id == id);
                }
            }
            if exists|j: int| 0 <= j < ds.len() && (#[trigger] ds[j]).enabled && ds[j].id == id {
                let j = choose|j: int|
                    0 <= j < ds.len() && (#[trigger] ds[j]).enabled && ds[j].id == id;
                if j < front.len() {
                    assert(front[j].enabled && front[j].id == id);
                    assert(enabled_ids(front).contains(id));
                    let k = choose|k: int|
                        0 <= k < enabled_ids(front).len() && enabled_ids(front)[k] == id;
                    assert(enabled_ids(ds)[k] == id);
                } else {
                    assert(enabled_ids(ds)[enabled_ids(front).len() as int] == id);
                }
            }
        }
        if disabled_everywhere(ds) {
            assert forall|i: int| 0 <= i < front.len() implies !(#[trigger] front[i]).enabled by {
                assert(!ds[i].enabled);
            }
            assert(!ds[ds.len() - 1].enabled);
        }
        if enabled_ids(ds).len() == 0 {
            assert forall|i: int| 0 <= i < ds.len() implies !(#[trigger] ds[i]).enabled by {
                if i < front.len() {
                    assert(!front[i].enabled);
                }
            }
        }
    }
}

/// An id is among the enabled ids of rules just where one of their
/// descriptors is enabled and has the id.
pub proof fn lemma_enabled_rule_ids<R: Rule>(rules: Seq<R::V>)
    ensures
        forall|id: usize|
            #[trigger] enabled_rule_ids::<R>(rules).contains(id) <==> exists|i: int|
                0 <= i < rules.len() && #[trigger] enabled_ids(R::descriptors(rules[i])).contains(
                    id,
                ),
        enabled_rule_ids::<R>(rules).len() == 0 <==> forall|i: int|
            0 <= i < rules.len() ==> #[trigger] enabled_ids(R::descriptors(rules[i])).len() == 0,
    decreases rules.len(),
{
    if rules.len() == 0 {
    } else {
        let front = rules.drop_last();
        let own = enabled_ids(R::descriptors(rules.last()));
        lemma_enabled_rule_ids::<R>(front);
        let before = enabled_rule_ids::<R>(front);
        assert forall|id: usize| #[trigger]
            enabled_rule_ids::<R>(rules).contains(id) <==> exists|i: int|
                0 <= i < rules.len() && #[trigger] enabled_ids(R::descriptors(rules[i])).contains(
                    id,
                ) by {
            if (before + own).contains(id) {
                let k = choose|k: int| 0 <= k < (before + own).len() && (before + own)[k] == id;
                if k < before.len() {
                    assert(before[k] == id);
                    assert(before.contains(id));
                    let i = choose|i: int|
                        0 <= i < front.len() && #[trigger] enabled_ids(
                            R::descriptors(front[i]),
                        ).contains(id);
                    assert(enabled_ids(R::descriptors(rules[i])).contains(id));
                } else {
                    assert(own[k - before.len()] == id);
                    assert(enabled_ids(R::descriptors(rules[rules.len() - 1])).contains(id));
                }
            }
            if exists|i: int|
                0 <= i < rules.len() && #[trigger] enabled_ids(R::descriptors(rules[i])).contains(
                    id,
                ) {
                let i = choose|i: int|
                    0 <= i < rules.len() && #[trigger] enabled_ids(
                        R::descriptors(rules[i]),
                    ).contains(id);
                if i < front.len() {
                    assert(enabled_ids(R::descriptors(front[i])).contains(id));
                    assert(before.contains(id));
                    let k = choose|k: int| 0 <= k < before.len() && before[k] == id;
                    assert((before + own)[k] == id);
                } else {
                    let k = choose|k: int| 0 <= k < own.len() && own[k] == id;
                    assert((before + own)[before.len() + k] == id);
                }
            }
        }
        if enabled_rule_ids::<R>(rules).len() == 0 {
            assert forall|i: int| 0 <= i < rules.len() implies #[trigger] enabled_ids(
                R::descriptors(rules[i]),
            ).len() == 0 by {
                if i < front.len() {
                    assert(enabled_ids(R::descriptors(front[i])).len() == 0);
                }
            }
        }
        if forall|i: int|
            0 <= i < rules.len() ==> #[trigger] enabled_ids(R::descriptors(rules[i])).len() == 0 {
            assert forall|i: int| 0 <= i < front.len() implies #[trigger] enabled_ids(
                R::descriptors(front[i]),
            ).len() == 0 by {
                assert(enabled_ids(R::descriptors(rules[i])).len() == 0);
            }
            assert(enabled_ids(R::descriptors(rules[rules.len() - 1])).len() == 0);
        }
    }
}

/// Rules with the same descriptors have the same enabled ids.
pub proof fn lemma_enabled_rule_ids_of_descriptors<R: Rule>(a: Seq<R::V>, b: Seq<R::V>)
    requires
        a.len() == b.len(),
        forall|i: int| 0 <= i < a.len() ==> R::descriptors(#[trigger] a[i]) == R::descriptors(b[i]),
    ensures
        enabled_rule_ids::<R>(a) == enabled_rule_ids::<R>(b),
    decreases a.len(),
{
    if a.len() > 0 {
        assert forall|i: int| 0 <= i < a.drop_last().len() implies R::descriptors(
            #[trigger] a.drop_last()[i],
        ) == R::descriptors(b.drop_last()[i]) by {
            assert(a.drop_last()[i] == a[i]);
        }
        lemma_enabled_rule_ids_of_descriptors::<R>(a.drop_last(), b.drop_last());
        assert(a.last() == a[a.len() - 1]);
    }
}

/// Rules that each grant nothing grant nothing together.
pub proof fn lemma_no_grants<M>(rules: Seq<M>, grant: spec_fn(M) -> Seq<Achievement>, n: int)
    requires
        n <= rules.len(),
        forall|i: int| 0 <= i < n ==> (#[trigger] grant(rules[i])).len() == 0,
    ensures
        grants_of(rules, grant, n) == Seq::<Achievement>::empty(),
    decreases n,
{
    if n > 0 {
        lemma_no_grants(rules, grant, n - 1);
        assert(grant(rules[n - 1]).len() == 0);
        assert(grants_of(rules, grant, n - 1) + grant(rules[n - 1]) =~= Seq::<
            Achievement,
        >::empty());
    }
}

/// Whether two sequences of rules are as many and own the same descriptors,
/// rule by rule.
pub open spec fn same_descriptors<R: Rule>(a: Seq<R::V>, b: Seq<R::V>) -> bool {
    &&& a.len() == b.len()
    &&& forall|i: int| 0 <= i < a.len() ==> R::descriptors(#[trigger] a[i]) == R::descriptors(b[i])
}

/// Dispatching changes leaves every rule its descriptors.
pub proof fn lemma_changes_keep_descriptors<R: Rule>(
    rules: Seq<R::V>,
    interest: Seq<bool>,
    commit: Commit,
    changes: Seq<TreeChange>,
    from: int,
)
    ensures
        same_descriptors::<R>(
            changes_dispatched::<R>(rules, interest, commit, changes, from).0,
            rules,
        ),
    decreases changes.len() - from,
{
    if from < 0 || from >= changes.len() {
    } else {
        let next = change_dispatched::<R>(rules, interest, commit, changes[from]);
        assert forall|i: int| 0 <= i < rules.len() implies R::descriptors(#[trigger] next.0[i])
            == R::descriptors(rules[i]) by {
            R::lemma_descriptors_stay(rules[i], commit, changes[from], arbitrary());
        }
        if !none_interested(next.1) {
            lemma_changes_keep_descriptors::<R>(next.0, next.1, commit, changes, from + 1);
            let last = changes_dispatched::<R>(next.0, next.1, commit, changes, from + 1).0;
            assert forall|i: int| 0 <= i < last.len() implies R::descriptors(#[trigger] last[i])
                == R::descriptors(rules[i]) by {
                assert(R::descriptors(last[i]) == R::descriptors(next.0[i]));
            }
        }
    }
}

/// The diff of a commit leaves every rule its descriptors.
pub proof fn lemma_diff_keeps_descriptors<R: Rule>(
    rules: Seq<R::V>,
    commit: Commit,
    changes: Seq<TreeChange>,
)
    ensures
        same_descriptors::<R>(
            diff_ended::<R>(diff_dispatched::<R>(rules, commit, changes).0, commit),
            rules,
        ),
{
    let started = diff_started::<R>(rules, commit);
    let shown = diff_dispatched::<R>(rules, commit, changes);
    lemma_changes_keep_descriptors::<R>(started, interests::<R>(rules), commit, changes, 0);
    let ended = diff_ended::<R>(shown.0, commit);
    assert forall|i: int| 0 <= i < rules.len() implies R::descriptors(#[trigger] ended[i])
        == R::descriptors(rules[i]) by {
        R::lemma_descriptors_stay(rules[i], commit, arbitrary(), arbitrary());
        R::lemma_descriptors_stay(shown.0[i], commit, arbitrary(), arbitrary());
        assert(R::descriptors(started[i]) == R::descriptors(rules[i]));
        assert(R::descriptors(shown.0[i]) == R::descriptors(started[i]));
    }
}

/// An id is among those of `previous` that are among `enabled` just where
/// it is among both.
pub proof fn lemma_covered(previous: Seq<usize>, enabled: Seq<usize>)
    ensures
        forall|id: usize| #[trigger]
            covered(previous, enabled).contains(id) <==> previous.contains(id) && enabled.contains(
                id,
            ),
    decreases previous.len(),
{
    if previous.len() > 0 {
        let front = previous.drop_last();
        let before = covered(front, enabled);
        let all = covered(previous, enabled);
        lemma_covered(front, enabled);
        assert forall|id: usize| #[trigger]
            all.contains(id) <==> previous.contains(id) && enabled.contains(id) by {
            if all.contains(id) {
                let k = choose|k: int| 0 <= k < all.len() && all[k] == id;
                if k < before.len() {
                    assert(before[k] == id);
                    assert(before.contains(id));
                    let j = choose|j: int| 0 <= j < front.len() && front[j] == id;
                    assert(previous[j] == id);
                } else {
                    assert(previous[previous.len() - 1] == id);
                }
            }
            if previous.contains(id) && enabled.contains(id) {
                let j = choose|j: int| 0 <= j < previous.len() && previous[j] == id;
                if j < front.len() {
                    assert(front[j] == id);
                    assert(before.contains(id));
                    let k = choose|k: int| 0 <= k < before.len() && before[k] == id;
                    assert(all[k] == id);
                } else {
                    assert(all[before.len() as int] == id);
                }
            }
        }
    }
}

/// A rule that has an enabled descriptor is among the rules that are
/// retained.
pub proof fn lemma_retained_holds<R: Rule>(rules: Seq<R::V>, i: int)
    requires
        0 <= i < rules.len(),
        !disabled_everywhere(R::descriptors(rules[i])),
    ensures
        exists|k: int| 0 <= k < retained::<R>(rules).len() && retained::<R>(rules)[k] == rules[i],
    decreases rules.len(),
{
    let front = rules.drop_last();
    let kept = retained::<R>(rules);
    if i < front.len() {
        assert(front[i] == rules[i]);
        lemma_retained_holds::<R>(front, i);
        let k = choose|k: int|
            0 <= k < retained::<R>(front).len() && retained::<R>(front)[k] == rules[i];
        assert(kept[k] == rules[i]);
    } else {
        assert(rules.last() == rules[i]);
        assert(kept[kept.len() - 1] == rules[i]);
    }
}

/// Each of the rules that are retained is one of the rules, and has a
/// descriptor that is enabled.
pub proof fn lemma_retained_are_among<R: Rule>(rules: Seq<R::V>)
    ensures
        forall|i: int|
            0 <= i < retained::<R>(rules).len() ==> exists|k: int|
                0 <= k < rules.len() && rules[k] == #[trigger] retained::<R>(rules)[i],
        forall|i: int|
            0 <= i < retained::<R>(rules).len() ==> !disabled_everywhere(
                R::descriptors(#[trigger] retained::<R>(rules)[i]),
            ),
    decreases rules.len(),
{
    if rules.len() > 0 {
        let front = rules.drop_last();
        lemma_retained_are_among::<R>(front);
        let kept = retained::<R>(rules);
        assert forall|i: int| 0 <= i < kept.len() implies (exists|k: int|
            0 <= k < rules.len() && rules[k] == #[trigger] kept[i]) && !disabled_everywhere(
            R::descriptors(kept[i]),
        ) by {
            if i < retained::<R>(front).len() {
                assert(kept[i] == retained::<R>(front)[i]);
                let k = choose|k: int|
                    0 <= k < front.len() && front[k] == retained::<R>(front)[i];
                assert(rules[k] == kept[i]);
            } else {
                assert(rules[rules.len() - 1] == kept[i]);
            }
        }
    }
}

} // verus!
