//! What a run leaves for the next one, and what the next one makes of it.
use vstd::prelude::*;

use crate::achievement::achievement::{
    disabled_everywhere, enabled_ids, Achievement, AchievementDescriptor, Rule,
};
use crate::achievement::guarantees::{
    lemma_covered, lemma_diff_keeps_descriptors, lemma_enabled_ids, lemma_enabled_rule_ids,
    lemma_enabled_rule_ids_of_descriptors, lemma_no_grants, lemma_retained_are_among,
    lemma_retained_holds, lemma_toggled_all, lemma_with_all, same_descriptors, toggled_all,
};
use crate::achievement::model::{
    all_with, commit_fed, covered, drained, early_exit_spec, enabled_rule_ids, fini_all,
    initial_state, leaving_ids, next_spec, prefinalize, retained, run_spec, walk_ended, with_all,
    EngineView, Step,
};
use crate::cache::EntryCacheView;
use crate::git::WalkItem;

verus! {

/// Whether a rule that has seen no commit grants nothing when it is
/// finalized, whatever the record that it started from holds and whichever
/// of its descriptors are enabled.
pub open spec fn quiet_when_fresh<R: Rule>(m: R::V) -> bool {
    forall|cache: EntryCacheView, ds: Seq<AchievementDescriptor>|
        (#[trigger] R::finalize_spec(
            R::with_descriptors(R::init_cache_spec(m, cache), ds),
        )).1.len() == 0
}

/// A commit at which the previous run did not begin leaves every rule its
/// descriptors, and leaves the record and the suppressed ids alone.
proof fn lemma_commit_keeps_descriptors<R: Rule>(s: EngineView<R::V>, item: WalkItem)
    requires
        s.cache.last_processed_commit != Some(item.commit.id),
        !s.has_finalized,
        !s.in_commit,
    ensures
        !commit_fed::<R>(s, item).in_commit,
        same_descriptors::<R>(commit_fed::<R>(s, item).rules, s.rules),
        commit_fed::<R>(s, item).cache == s.cache,
        commit_fed::<R>(s, item).suppressed == s.suppressed,
        commit_fed::<R>(s, item).departed == s.departed,
        !commit_fed::<R>(s, item).has_finalized,
        commit_fed::<R>(s, item).first_commit == if s.first_commit is None {
            Some(item.commit.id)
        } else {
            s.first_commit
        },
{
    let commit = item.commit;
    let early = early_exit_spec::<R>(s, commit.id);
    assert(early.2);
    let processed = Seq::new(
        early.0.rules.len(),
        |i: int| R::process_spec(early.0.rules[i], commit).0,
    );
    lemma_diff_keeps_descriptors::<R>(processed, commit, item.changes@);
    let after = commit_fed::<R>(s, item).rules;
    assert forall|i: int| 0 <= i < s.rules.len() implies R::descriptors(#[trigger] after[i])
        == R::descriptors(s.rules[i]) by {
        R::lemma_descriptors_stay(s.rules[i], commit, arbitrary(), arbitrary());
        assert(R::descriptors(after[i]) == R::descriptors(processed[i]));
    }
}

/// What the rules leave in the record does not touch the last commit and the
/// ids.
proof fn lemma_fini_all<R: Rule>(rules: Seq<R::V>, cache: EntryCacheView, n: int)
    requires
        n <= rules.len(),
    ensures
        fini_all::<R>(rules, cache, n).last_processed_commit == cache.last_processed_commit,
        fini_all::<R>(rules, cache, n).last_processed_rules == cache.last_processed_rules,
    decreases n,
{
    if n > 0 {
        lemma_fini_all::<R>(rules, cache, n - 1);
        R::lemma_descriptors_stay(
            rules[n - 1],
            arbitrary(),
            arbitrary(),
            fini_all::<R>(rules, cache, n - 1),
        );
    }
}

/// Disabling ids among which every enabled id of the rules is leaves none of
/// the rules a descriptor that is enabled.
proof fn lemma_all_suppressed<R: Rule>(rules: Seq<R::V>, ids: Seq<usize>)
    requires
        forall|id: usize| #[trigger] enabled_rule_ids::<R>(rules).contains(id) ==> ids.contains(id),
    ensures
        enabled_rule_ids::<R>(all_with::<R>(rules, ids, false)).len() == 0,
{
    let quiet = all_with::<R>(rules, ids, false);
    lemma_enabled_rule_ids::<R>(rules);
    lemma_enabled_rule_ids::<R>(quiet);
    assert forall|i: int| 0 <= i < quiet.len() implies #[trigger] enabled_ids(
        R::descriptors(quiet[i]),
    ).len() == 0 by {
        let ds = R::descriptors(rules[i]);
        lemma_with_all::<R>(rules[i], ids, false);
        lemma_toggled_all(ds, ids, false);
        lemma_enabled_ids(ds);
        let after = R::descriptors(quiet[i]);
        lemma_enabled_ids(after);
        assert forall|j: int| 0 <= j < after.len() implies !(#[trigger] after[j]).enabled by {
            assert(after[j] == toggled_all(ds, ids, false)[j]);
            if ds[j].enabled {
                assert(enabled_ids(ds).contains(ds[j].id));
                assert(enabled_ids(R::descriptors(rules[i])).contains(ds[j].id));
                assert(enabled_rule_ids::<R>(rules).contains(ds[j].id));
                assert(ids.contains(ds[j].id));
            }
        }
    }
}

/// A rule that has seen no commit is still one, whichever of its descriptors
/// were enabled and disabled.
proof fn lemma_fresh_stays_quiet<R: Rule>(
    m: R::V,
    cache: EntryCacheView,
    off: Seq<usize>,
    on: Seq<usize>,
)
    requires
        quiet_when_fresh::<R>(m),
    ensures
        R::finalize_spec(
            with_all::<R>(with_all::<R>(R::init_cache_spec(m, cache), off, false), on, true),
        ).1.len() == 0,
{
    let fresh = R::init_cache_spec(m, cache);
    let quiet = with_all::<R>(fresh, off, false);
    lemma_with_all::<R>(fresh, off, false);
    lemma_with_all::<R>(quiet, on, true);
    let first = toggled_all(R::descriptors(fresh), off, false);
    let second = toggled_all(R::descriptors(quiet), on, true);
    R::lemma_with_descriptors(fresh, first, second);
    assert(with_all::<R>(quiet, on, true) == R::with_descriptors(fresh, second));
}

/// A run that begins at the commit at which the previous run began, with
/// rules of which the record holds every enabled id, grants nothing if its
/// rules grant nothing before they have seen a commit.
proof fn lemma_second_run<R: Rule>(rules: Seq<R::V>, cache: EntryCacheView, walk: Seq<WalkItem>)
    requires
        forall|i: int| 0 <= i < rules.len() ==> quiet_when_fresh::<R>(#[trigger] rules[i]),
        forall|id: usize| #[trigger]
            enabled_rule_ids::<R>(rules).contains(id) ==> cache.last_processed_rules.contains(id),
        walk.len() > 0 ==> cache.last_processed_commit == Some(walk[0].commit.id),
    ensures
        run_spec::<R>(rules, cache, walk).1 == Seq::<Achievement>::empty(),
        run_spec::<R>(rules, cache, walk).0.num_commits_processed == 0,
{
    let s = initial_state::<R>(rules, cache);
    assert forall|i: int| 0 <= i < rules.len() implies R::descriptors(#[trigger] s.rules[i])
        == R::descriptors(rules[i]) by {
        R::lemma_descriptors_stay(rules[i], arbitrary(), arbitrary(), cache);
    }
    lemma_enabled_rule_ids_of_descriptors::<R>(s.rules, rules);
    let ids = enabled_rule_ids::<R>(s.rules);
    assert(next_spec::<R>(s).1 == Step::NeedsCommit);
    assert(next_spec::<R>(s).0 == s);
    if walk.len() == 0 {
        let restored = all_with::<R>(s.rules, s.suppressed, true);
        let grant = |m: R::V| R::finalize_spec(m).1;
        assert forall|i: int| 0 <= i < restored.len() implies (#[trigger] grant(
            restored[i],
        )).len() == 0 by {
            assert(with_all::<R>(s.rules[i], Seq::<usize>::empty(), false) == s.rules[i]);
            lemma_fresh_stays_quiet::<R>(rules[i], cache, Seq::empty(), Seq::empty());
        }
        lemma_no_grants(restored, grant, restored.len() as int);
        let t = walk_ended::<R>(s);
        assert(t.pending =~= Seq::<Achievement>::empty());
        assert(t.has_finalized);
        assert(drained::<R>(s, walk, 0) == drained::<R>(t, walk, 0));
        assert(drained::<R>(t, walk, 0).1 == Seq::<Achievement>::empty());
    } else {
        let oid = walk[0].commit.id;
        let hit = covered(s.cache.last_processed_rules, ids);
        lemma_covered(s.cache.last_processed_rules, ids);
        let quiet = all_with::<R>(s.rules, hit, false);
        lemma_all_suppressed::<R>(s.rules, hit);
        let suppressed = s.suppressed + hit;
        assert(suppressed =~= hit);
        let restored = all_with::<R>(quiet, suppressed, true);
        let grant = |m: R::V| R::finalize_spec(m).1;
        assert forall|i: int| 0 <= i < restored.len() implies (#[trigger] grant(
            restored[i],
        )).len() == 0 by {
            lemma_fresh_stays_quiet::<R>(rules[i], cache, hit, suppressed);
        }
        lemma_no_grants(restored, grant, restored.len() as int);
        let early = early_exit_spec::<R>(s, oid);
        assert(!early.2);
        assert(early.1 == Seq::<Achievement>::empty());
        assert(early.0.has_finalized);
        let t = commit_fed::<R>(s, walk[0]);
        assert(t.pending =~= Seq::<Achievement>::empty());
        assert(t.has_finalized);
        assert(drained::<R>(s, walk, 0) == drained::<R>(t, walk, 1));
        assert(drained::<R>(t, walk, 1).1 == Seq::<Achievement>::empty());
    }
}

/// Whether one of the descriptors has the id, and is enabled or is to be
/// enabled again.
spec fn keeps(ds: Seq<AchievementDescriptor>, suppressed: Seq<usize>, id: usize) -> bool {
    exists|j: int|
        0 <= j < ds.len() && (#[trigger] ds[j]).id == id && (ds[j].enabled || suppressed.contains(
            id,
        ))
}

/// Whether each of `ids` is kept: by one of the rules, or among the ids of
/// the rules that left.
spec fn all_kept<R: Rule>(
    rules: Seq<R::V>,
    suppressed: Seq<usize>,
    departed: Seq<usize>,
    ids: Seq<usize>,
) -> bool {
    forall|id: usize| #[trigger]
        ids.contains(id) ==> departed.contains(id) || exists|i: int|
            0 <= i < rules.len() && keeps(R::descriptors(#[trigger] rules[i]), suppressed, id)
}

/// Whether the engine is on its way to a record that holds each of `ids`.
spec fn on_course<R: Rule>(s: EngineView<R::V>, ids: Seq<usize>) -> bool {
    if s.has_finalized {
        forall|id: usize| #[trigger]
            ids.contains(id) ==> s.departed.contains(id) || enabled_rule_ids::<R>(
                s.rules,
            ).contains(id)
    } else {
        all_kept::<R>(s.rules, s.suppressed, s.departed, ids)
    }
}

/// What is among one of two sequences is among the two joined.
proof fn lemma_joined_holds(a: Seq<usize>, b: Seq<usize>)
    ensures
        forall|id: usize| a.contains(id) || b.contains(id) ==> #[trigger] (a + b).contains(id),
{
    assert forall|id: usize| a.contains(id) || b.contains(id) implies #[trigger] (a + b).contains(
        id,
    ) by {
        if a.contains(id) {
            let k = choose|k: int| 0 <= k < a.len() && a[k] == id;
            assert((a + b)[k] == id);
        } else {
            let k = choose|k: int| 0 <= k < b.len() && b[k] == id;
            assert((a + b)[a.len() + k] == id);
        }
    }
}

/// Ids that rules keep are kept by rules with the same descriptors.
proof fn lemma_kept_same<R: Rule>(
    a: Seq<R::V>,
    b: Seq<R::V>,
    suppressed: Seq<usize>,
    departed: Seq<usize>,
    ids: Seq<usize>,
)
    requires
        same_descriptors::<R>(a, b),
        all_kept::<R>(b, suppressed, departed, ids),
    ensures
        all_kept::<R>(a, suppressed, departed, ids),
{
    assert forall|id: usize| #[trigger] ids.contains(id) implies departed.contains(id) || exists|
        i: int,
    | 0 <= i < a.len() && keeps(R::descriptors(#[trigger] a[i]), suppressed, id) by {
        if !departed.contains(id) {
            let i = choose|i: int|
                0 <= i < b.len() && keeps(R::descriptors(#[trigger] b[i]), suppressed, id);
            assert(R::descriptors(a[i]) == R::descriptors(b[i]));
        }
    }
}

/// Where each of `ids` is kept, each is enabled once the rules were
/// finalized, or is among the ids of the rules that left, if every id that
/// was suppressed or disabled before that is enabled again.
proof fn lemma_restored<R: Rule>(
    rules: Seq<R::V>,
    suppressed: Seq<usize>,
    departed: Seq<usize>,
    off: Seq<usize>,
    on: Seq<usize>,
    ids: Seq<usize>,
    after: Seq<R::V>,
)
    requires
        all_kept::<R>(rules, suppressed, departed, ids),
        forall|id: usize|
            suppressed.contains(id) || off.contains(id) ==> #[trigger] on.contains(id),
        after.len() == rules.len(),
        forall|i: int|
            0 <= i < rules.len() ==> #[trigger] after[i] == R::finalize_spec(
                with_all::<R>(with_all::<R>(rules[i], off, false), on, true),
            ).0,
    ensures
        forall|id: usize| #[trigger]
            ids.contains(id) ==> departed.contains(id) || enabled_rule_ids::<R>(after).contains(
                id,
            ),
{
    lemma_enabled_rule_ids::<R>(after);
    assert forall|id: usize| #[trigger] ids.contains(id) implies departed.contains(id)
        || enabled_rule_ids::<R>(after).contains(id) by {
        if !departed.contains(id) {
            let i = choose|i: int|
                0 <= i < rules.len() && keeps(R::descriptors(#[trigger] rules[i]), suppressed, id);
            let ds = R::descriptors(rules[i]);
            let j = choose|j: int|
                0 <= j < ds.len() && (#[trigger] ds[j]).id == id && (ds[j].enabled
                    || suppressed.contains(id));
            let quiet = with_all::<R>(rules[i], off, false);
            let restored = with_all::<R>(quiet, on, true);
            lemma_with_all::<R>(rules[i], off, false);
            lemma_with_all::<R>(quiet, on, true);
            lemma_toggled_all(ds, off, false);
            lemma_toggled_all(R::descriptors(quiet), on, true);
            R::lemma_descriptors_stay(restored, arbitrary(), arbitrary(), arbitrary());
            let last = R::descriptors(after[i]);
            assert(last == R::descriptors(restored));
            assert(R::descriptors(quiet)[j].id == id);
            assert(last[j].enabled && last[j].id == id);
            lemma_enabled_ids(last);
            assert(enabled_ids(R::descriptors(after[i])).contains(id));
        }
    }
}

/// The ids that a rule without an enabled descriptor has enabled, once the
/// suppressed ids are enabled again, are among the ids that leave.
proof fn lemma_leaving_ids<R: Rule>(rules: Seq<R::V>, suppressed: Seq<usize>, i: int)
    requires
        0 <= i < rules.len(),
        disabled_everywhere(R::descriptors(rules[i])),
    ensures
        forall|id: usize| #[trigger]
            enabled_ids(R::descriptors(with_all::<R>(rules[i], suppressed, true))).contains(id)
                ==> leaving_ids::<R>(rules, suppressed).contains(id),
    decreases rules.len(),
{
    let front = rules.drop_last();
    if i < front.len() {
        assert(front[i] == rules[i]);
        lemma_leaving_ids::<R>(front, suppressed, i);
    } else {
        assert(rules.last() == rules[i]);
    }
    if disabled_everywhere(R::descriptors(rules.last())) {
        lemma_joined_holds(
            leaving_ids::<R>(front, suppressed),
            enabled_ids(R::descriptors(with_all::<R>(rules.last(), suppressed, true))),
        );
    }
}

/// Where the walk comes upon the commit of the record and some rule has
/// work left, each of `ids` is still kept: by a rule that goes on, or among
/// the ids of the rules that leave.
proof fn lemma_frontier_kept<R: Rule>(
    rules: Seq<R::V>,
    suppressed: Seq<usize>,
    departed: Seq<usize>,
    hit: Seq<usize>,
    ids: Seq<usize>,
    early: Seq<R::V>,
)
    requires
        all_kept::<R>(rules, suppressed, departed, ids),
        early.len() == rules.len(),
        forall|i: int|
            0 <= i < rules.len() ==> #[trigger] early[i] == prefinalize::<R>(
                with_all::<R>(rules[i], hit, false),
                suppressed + hit,
            ).0,
    ensures
        all_kept::<R>(
            retained::<R>(early),
            suppressed + hit,
            departed + leaving_ids::<R>(all_with::<R>(rules, hit, false), suppressed + hit),
            ids,
        ),
{
    let later = suppressed + hit;
    let quiet = all_with::<R>(rules, hit, false);
    let kept = retained::<R>(early);
    let left = departed + leaving_ids::<R>(quiet, later);
    lemma_joined_holds(suppressed, hit);
    lemma_joined_holds(departed, leaving_ids::<R>(quiet, later));
    assert forall|id: usize| #[trigger] ids.contains(id) implies left.contains(id) || exists|
        k: int,
    | 0 <= k < kept.len() && keeps(R::descriptors(#[trigger] kept[k]), later, id) by {
        if !departed.contains(id) {
            let i = choose|i: int|
                0 <= i < rules.len() && keeps(R::descriptors(#[trigger] rules[i]), suppressed, id);
            let ds = R::descriptors(rules[i]);
            let j = choose|j: int|
                0 <= j < ds.len() && (#[trigger] ds[j]).id == id && (ds[j].enabled
                    || suppressed.contains(id));
            lemma_with_all::<R>(rules[i], hit, false);
            lemma_toggled_all(ds, hit, false);
            let dq = R::descriptors(quiet[i]);
            assert(dq[j].id == id);
            assert(dq[j].enabled || later.contains(id));
            if disabled_everywhere(dq) {
                let restored = R::descriptors(with_all::<R>(quiet[i], later, true));
                lemma_with_all::<R>(quiet[i], later, true);
                lemma_toggled_all(dq, later, true);
                assert(restored[j].enabled && restored[j].id == id);
                lemma_enabled_ids(restored);
                assert(enabled_ids(restored).contains(id));
                lemma_leaving_ids::<R>(quiet, later, i);
                assert(leaving_ids::<R>(quiet, later).contains(id));
            } else {
                assert(early[i] == quiet[i]);
                assert(keeps(dq, later, id));
                lemma_retained_holds::<R>(early, i);
                let k = choose|k: int| 0 <= k < kept.len() && kept[k] == early[i];
                assert(keeps(R::descriptors(kept[k]), later, id));
            }
        }
    }
}

/// A commit leaves an engine that is on its course on it.
proof fn lemma_commit_on_course<R: Rule>(s: EngineView<R::V>, item: WalkItem, ids: Seq<usize>)
    requires
        !s.has_finalized,
        !s.in_commit,
        on_course::<R>(s, ids),
    ensures
        on_course::<R>(commit_fed::<R>(s, item), ids),
        !commit_fed::<R>(s, item).in_commit,
        commit_fed::<R>(s, item).first_commit == if s.first_commit is None {
            Some(item.commit.id)
        } else {
            s.first_commit
        },
{
    let commit = item.commit;
    let changes = item.changes@;
    let early = early_exit_spec::<R>(s, commit.id);
    let t = commit_fed::<R>(s, item);
    if s.cache.last_processed_commit != Some(commit.id) {
        lemma_commit_keeps_descriptors::<R>(s, item);
        lemma_kept_same::<R>(t.rules, s.rules, s.suppressed, s.departed, ids);
    } else {
        let hit = covered(s.cache.last_processed_rules, enabled_rule_ids::<R>(s.rules));
        let later = s.suppressed + hit;
        let quiet = all_with::<R>(s.rules, hit, false);
        lemma_joined_holds(s.suppressed, hit);
        if enabled_rule_ids::<R>(quiet).len() == 0 {
            assert(t.has_finalized);
            lemma_restored::<R>(s.rules, s.suppressed, s.departed, hit, later, ids, t.rules);
        } else {
            let first = Seq::new(quiet.len(), |i: int| prefinalize::<R>(quiet[i], later).0);
            let kept = retained::<R>(first);
            lemma_frontier_kept::<R>(s.rules, s.suppressed, s.departed, hit, ids, first);
            assert(early.0.rules == kept);
            let processed = Seq::new(kept.len(), |i: int| R::process_spec(kept[i], commit).0);
            assert forall|i: int| 0 <= i < kept.len() implies R::descriptors(
                #[trigger] processed[i],
            ) == R::descriptors(kept[i]) by {
                R::lemma_descriptors_stay(kept[i], commit, arbitrary(), arbitrary());
            }
            lemma_diff_keeps_descriptors::<R>(processed, commit, changes);
            assert forall|i: int| 0 <= i < kept.len() implies R::descriptors(#[trigger] t.rules[i])
                == R::descriptors(kept[i]) by {
                assert(R::descriptors(t.rules[i]) == R::descriptors(processed[i]));
            }
            lemma_kept_same::<R>(t.rules, kept, later, t.departed, ids);
        }
    }
}

/// The end of the walk leaves an engine that is on its course on it.
proof fn lemma_walk_end_on_course<R: Rule>(s: EngineView<R::V>, ids: Seq<usize>)
    requires
        !s.has_finalized,
        on_course::<R>(s, ids),
    ensures
        on_course::<R>(walk_ended::<R>(s), ids),
        walk_ended::<R>(s).has_finalized,
        !walk_ended::<R>(s).in_commit,
        walk_ended::<R>(s).first_commit == s.first_commit,
{
    let t = walk_ended::<R>(s);
    assert forall|i: int| 0 <= i < s.rules.len() implies #[trigger] t.rules[i]
        == R::finalize_spec(
        with_all::<R>(with_all::<R>(s.rules[i], Seq::empty(), false), s.suppressed, true),
    ).0 by {
        assert(with_all::<R>(s.rules[i], Seq::<usize>::empty(), false) == s.rules[i]);
    }
    lemma_restored::<R>(
        s.rules,
        s.suppressed,
        s.departed,
        Seq::empty(),
        s.suppressed,
        ids,
        t.rules,
    );
}

/// A run that is on its course leaves a record that holds each of `ids`,
/// and the first commit of the walk.
proof fn lemma_run_on_course<R: Rule>(
    s: EngineView<R::V>,
    walk: Seq<WalkItem>,
    pos: int,
    ids: Seq<usize>,
)
    requires
        0 <= pos <= walk.len(),
        !s.in_commit,
        on_course::<R>(s, ids),
        s.has_finalized ==> s.first_commit is Some || pos >= walk.len(),
    ensures
        forall|id: usize| #[trigger]
            ids.contains(id) ==> drained::<R>(s, walk, pos).0.cache.last_processed_rules.contains(
                id,
            ),
        drained::<R>(s, walk, pos).0.cache.last_processed_commit == if s.first_commit is Some {
            s.first_commit
        } else if pos < walk.len() {
            Some(walk[pos].commit.id)
        } else {
            None
        },
    decreases
            walk.len() - pos,
            (if s.has_finalized {
                0int
            } else {
                1int
            }),
            s.pending.len(),
{
    let stepped = next_spec::<R>(s);
    match stepped.1 {
        Step::Granted(a) => {
            lemma_run_on_course::<R>(stepped.0, walk, pos, ids);
        },
        Step::NeedsCommit => {
            if 0 <= pos < walk.len() {
                lemma_commit_on_course::<R>(s, walk[pos], ids);
                lemma_run_on_course::<R>(commit_fed::<R>(s, walk[pos]), walk, pos + 1, ids);
            } else {
                lemma_walk_end_on_course::<R>(s, ids);
                lemma_run_on_course::<R>(walk_ended::<R>(s), walk, pos, ids);
            }
        },
        Step::Finished(_) => {
            lemma_fini_all::<R>(
                s.rules,
                EntryCacheView {
                    last_processed_commit: s.first_commit,
                    last_processed_rules: s.departed + enabled_rule_ids::<R>(s.rules),
                    ..s.cache
                },
                s.rules.len() as int,
            );
            lemma_joined_holds(s.departed, enabled_rule_ids::<R>(s.rules));
        },
    }
}

/// Whether each id that is enabled among `da` is enabled among `db` at the
/// same place, or is one of `extra`; the two have the same ids.
spec fn no_more_enabled(
    da: Seq<AchievementDescriptor>,
    db: Seq<AchievementDescriptor>,
    extra: Seq<usize>,
) -> bool {
    &&& da.len() == db.len()
    &&& forall|j: int|
        0 <= j < da.len() ==> (#[trigger] da[j]).id == db[j].id && (da[j].enabled ==> db[j].enabled
            || extra.contains(da[j].id))
}

/// Whether the engine has enabled, suppressed and let go only ids among
/// `ids`.
spec fn within<R: Rule>(s: EngineView<R::V>, ids: Seq<usize>) -> bool {
    &&& forall|id: usize| #[trigger]
        enabled_rule_ids::<R>(s.rules).contains(id) ==> ids.contains(id)
    &&& forall|id: usize| #[trigger] s.suppressed.contains(id) ==> ids.contains(id)
    &&& forall|id: usize| #[trigger] s.departed.contains(id) ==> ids.contains(id)
}

/// What is among two sequences joined is among one of them.
proof fn lemma_joined_held(a: Seq<usize>, b: Seq<usize>)
    ensures
        forall|id: usize| #[trigger] (a + b).contains(id) ==> a.contains(id) || b.contains(id),
{
    assert forall|id: usize| #[trigger] (a + b).contains(id) implies a.contains(id) || b.contains(
        id,
    ) by {
        let k = choose|k: int| 0 <= k < (a + b).len() && (a + b)[k] == id;
        if k < a.len() {
            assert(a[k] == id);
        } else {
            assert(b[k - a.len()] == id);
        }
    }
}

/// An id that is enabled where no more is enabled than elsewhere is enabled
/// there, or is one of the others.
proof fn lemma_no_more_enabled(
    da: Seq<AchievementDescriptor>,
    db: Seq<AchievementDescriptor>,
    extra: Seq<usize>,
)
    requires
        no_more_enabled(da, db, extra),
    ensures
        forall|id: usize| #[trigger]
            enabled_ids(da).contains(id) ==> enabled_ids(db).contains(id) || extra.contains(id),
{
    lemma_enabled_ids(da);
    lemma_enabled_ids(db);
    assert forall|id: usize| #[trigger] enabled_ids(da).contains(id) implies enabled_ids(
        db,
    ).contains(id) || extra.contains(id) by {
        let j = choose|j: int| 0 <= j < da.len() && (#[trigger] da[j]).enabled && da[j].id == id;
        if !extra.contains(id) {
            assert(db[j].enabled && db[j].id == id);
        }
    }
}

/// What a rule has enabled after ids were disabled and others enabled, and
/// after it was finalized, it had enabled before, or it is one of those that
/// were enabled.
proof fn lemma_restored_within<R: Rule>(m: R::V, off: Seq<usize>, on: Seq<usize>)
    ensures
        no_more_enabled(
            R::descriptors(with_all::<R>(with_all::<R>(m, off, false), on, true)),
            R::descriptors(m),
            on,
        ),
        no_more_enabled(
            R::descriptors(
                R::finalize_spec(with_all::<R>(with_all::<R>(m, off, false), on, true)).0,
            ),
            R::descriptors(m),
            on,
        ),
        no_more_enabled(R::descriptors(with_all::<R>(m, off, false)), R::descriptors(m), on),
{
    let ds = R::descriptors(m);
    let quiet = with_all::<R>(m, off, false);
    let restored = with_all::<R>(quiet, on, true);
    lemma_with_all::<R>(m, off, false);
    lemma_with_all::<R>(quiet, on, true);
    lemma_toggled_all(ds, off, false);
    lemma_toggled_all(R::descriptors(quiet), on, true);
    R::lemma_descriptors_stay(restored, arbitrary(), arbitrary(), arbitrary());
}

/// Rules that have no more enabled than others, one by one, have no more
/// enabled together.
proof fn lemma_rules_within<R: Rule>(a: Seq<R::V>, b: Seq<R::V>, extra: Seq<usize>)
    requires
        a.len() == b.len(),
        forall|i: int|
            0 <= i < a.len() ==> no_more_enabled(
                R::descriptors(#[trigger] a[i]),
                R::descriptors(b[i]),
                extra,
            ),
    ensures
        forall|id: usize| #[trigger]
            enabled_rule_ids::<R>(a).contains(id) ==> enabled_rule_ids::<R>(b).contains(id)
                || extra.contains(id),
{
    lemma_enabled_rule_ids::<R>(a);
    lemma_enabled_rule_ids::<R>(b);
    assert forall|id: usize| #[trigger]
        enabled_rule_ids::<R>(a).contains(id) implies enabled_rule_ids::<R>(b).contains(id)
        || extra.contains(id) by {
        let i = choose|i: int|
            0 <= i < a.len() && #[trigger] enabled_ids(R::descriptors(a[i])).contains(id);
        assert(no_more_enabled(R::descriptors(a[i]), R::descriptors(b[i]), extra));
        lemma_no_more_enabled(R::descriptors(a[i]), R::descriptors(b[i]), extra);
        if !extra.contains(id) {
            assert(enabled_ids(R::descriptors(b[i])).contains(id));
        }
    }
}

/// The ids that leave are among the ids that the rules had enabled, and
/// those that are enabled again.
proof fn lemma_leaving_within<R: Rule>(rules: Seq<R::V>, suppressed: Seq<usize>)
    ensures
        forall|id: usize| #[trigger]
            leaving_ids::<R>(rules, suppressed).contains(id) ==> suppressed.contains(id),
    decreases rules.len(),
{
    let all = leaving_ids::<R>(rules, suppressed);
    if rules.len() > 0 {
        let front = rules.drop_last();
        let before = leaving_ids::<R>(front, suppressed);
        lemma_leaving_within::<R>(front, suppressed);
        if disabled_everywhere(R::descriptors(rules.last())) {
            let m = rules.last();
            let ds = R::descriptors(m);
            let restored = R::descriptors(with_all::<R>(m, suppressed, true));
            let own = enabled_ids(restored);
            lemma_with_all::<R>(m, suppressed, true);
            lemma_toggled_all(ds, suppressed, true);
            lemma_enabled_ids(restored);
            lemma_joined_held(before, own);
            assert(all == before + own);
            assert forall|id: usize| #[trigger] all.contains(id) implies suppressed.contains(
                id,
            ) by {
                if !before.contains(id) {
                    assert(own.contains(id));
                    let j = choose|j: int|
                        0 <= j < restored.len() && (#[trigger] restored[j]).enabled
                            && restored[j].id == id;
                    assert(!ds[j].enabled);
                }
            }
        } else {
            assert(all == before);
        }
    } else {
        assert forall|id: usize| #[trigger] all.contains(id) implies suppressed.contains(id) by {
            assert(all.len() == 0);
        }
    }
}

/// A commit leaves an engine that keeps within `ids` within them.
proof fn lemma_commit_within<R: Rule>(s: EngineView<R::V>, item: WalkItem, ids: Seq<usize>)
    requires
        !s.has_finalized,
        !s.in_commit,
        within::<R>(s, ids),
    ensures
        within::<R>(commit_fed::<R>(s, item), ids),
{
    let commit = item.commit;
    let changes = item.changes@;
    let early = early_exit_spec::<R>(s, commit.id);
    let t = commit_fed::<R>(s, item);
    if s.cache.last_processed_commit != Some(commit.id) {
        lemma_commit_keeps_descriptors::<R>(s, item);
        lemma_enabled_rule_ids_of_descriptors::<R>(t.rules, s.rules);
    } else {
        let enabled = enabled_rule_ids::<R>(s.rules);
        let hit = covered(s.cache.last_processed_rules, enabled);
        let later = s.suppressed + hit;
        let quiet = all_with::<R>(s.rules, hit, false);
        lemma_covered(s.cache.last_processed_rules, enabled);
        lemma_joined_held(s.suppressed, hit);
        assert forall|id: usize| #[trigger] later.contains(id) implies ids.contains(id) by {
            if hit.contains(id) {
                assert(enabled.contains(id));
            }
        }
        if enabled_rule_ids::<R>(quiet).len() == 0 {
            assert forall|i: int| 0 <= i < t.rules.len() implies no_more_enabled(
                R::descriptors(#[trigger] t.rules[i]),
                R::descriptors(s.rules[i]),
                later,
            ) by {
                lemma_restored_within::<R>(s.rules[i], hit, later);
            }
            lemma_rules_within::<R>(t.rules, s.rules, later);
        } else {
            let first = Seq::new(quiet.len(), |i: int| prefinalize::<R>(quiet[i], later).0);
            let kept = retained::<R>(first);
            assert(early.0.rules == kept);
            // A rule that is finalized early has nothing enabled afterwards that it had not
            // before.
            assert forall|i: int| 0 <= i < first.len() implies no_more_enabled(
                R::descriptors(#[trigger] first[i]),
                R::descriptors(s.rules[i]),
                Seq::empty(),
            ) by {
                lemma_restored_within::<R>(s.rules[i], hit, later);
                lemma_with_all::<R>(s.rules[i], hit, false);
                lemma_toggled_all(R::descriptors(s.rules[i]), hit, false);
                if disabled_everywhere(R::descriptors(quiet[i])) {
                    let restored = with_all::<R>(quiet[i], later, true);
                    let done = R::finalize_spec(restored).0;
                    lemma_with_all::<R>(quiet[i], later, true);
                    lemma_toggled_all(R::descriptors(quiet[i]), later, true);
                    R::lemma_descriptors_stay(restored, arbitrary(), arbitrary(), arbitrary());
                    lemma_with_all::<R>(done, later, false);
                    lemma_toggled_all(R::descriptors(done), later, false);
                    let last = R::descriptors(first[i]);
                    assert forall|j: int| 0 <= j < last.len() implies (#[trigger] last[j]).id
                        == R::descriptors(s.rules[i])[j].id && !last[j].enabled by {
                        assert(R::descriptors(done)[j].id == R::descriptors(s.rules[i])[j].id);
                        assert(!R::descriptors(quiet[i])[j].enabled);
                    }
                }
            }
            lemma_retained_are_among::<R>(first);
            lemma_enabled_rule_ids::<R>(kept);
            lemma_enabled_rule_ids::<R>(s.rules);
            assert forall|id: usize| #[trigger] enabled_rule_ids::<R>(kept).contains(
                id,
            ) implies ids.contains(id) by {
                let k = choose|k: int|
                    0 <= k < kept.len() && #[trigger] enabled_ids(R::descriptors(kept[k])).contains(
                        id,
                    );
                let i = choose|i: int| 0 <= i < first.len() && first[i] == kept[k];
                assert(no_more_enabled(
                    R::descriptors(first[i]),
                    R::descriptors(s.rules[i]),
                    Seq::empty(),
                ));
                lemma_no_more_enabled(
                    R::descriptors(first[i]),
                    R::descriptors(s.rules[i]),
                    Seq::empty(),
                );
                assert(enabled_ids(R::descriptors(s.rules[i])).contains(id));
                assert(enabled.contains(id));
            }
            let processed = Seq::new(kept.len(), |i: int| R::process_spec(kept[i], commit).0);
            assert forall|i: int| 0 <= i < kept.len() implies R::descriptors(
                #[trigger] processed[i],
            ) == R::descriptors(kept[i]) by {
                R::lemma_descriptors_stay(kept[i], commit, arbitrary(), arbitrary());
            }
            lemma_diff_keeps_descriptors::<R>(processed, commit, changes);
            assert forall|i: int| 0 <= i < kept.len() implies R::descriptors(#[trigger] t.rules[i])
                == R::descriptors(kept[i]) by {
                assert(R::descriptors(t.rules[i]) == R::descriptors(processed[i]));
            }
            lemma_enabled_rule_ids_of_descriptors::<R>(t.rules, kept);
            lemma_leaving_within::<R>(quiet, later);
            lemma_joined_held(s.departed, leaving_ids::<R>(quiet, later));
        }
    }
}

/// A run that keeps within `ids` leaves a record with ids among them.
proof fn lemma_run_within<R: Rule>(
    s: EngineView<R::V>,
    walk: Seq<WalkItem>,
    pos: int,
    ids: Seq<usize>,
)
    requires
        0 <= pos <= walk.len(),
        !s.in_commit,
        within::<R>(s, ids),
    ensures
        forall|id: usize| #[trigger]
            drained::<R>(s, walk, pos).0.cache.last_processed_rules.contains(id) ==> ids.contains(
                id,
            ),
    decreases
            walk.len() - pos,
            (if s.has_finalized {
                0int
            } else {
                1int
            }),
            s.pending.len(),
{
    let stepped = next_spec::<R>(s);
    match stepped.1 {
        Step::Granted(a) => {
            lemma_run_within::<R>(stepped.0, walk, pos, ids);
        },
        Step::NeedsCommit => {
            if 0 <= pos < walk.len() {
                lemma_commit_on_course::<R>(s, walk[pos], Seq::empty());
                lemma_commit_within::<R>(s, walk[pos], ids);
                lemma_run_within::<R>(commit_fed::<R>(s, walk[pos]), walk, pos + 1, ids);
            } else {
                let t = walk_ended::<R>(s);
                assert forall|i: int| 0 <= i < t.rules.len() implies no_more_enabled(
                    R::descriptors(#[trigger] t.rules[i]),
                    R::descriptors(s.rules[i]),
                    s.suppressed,
                ) by {
                    assert(with_all::<R>(s.rules[i], Seq::<usize>::empty(), false) == s.rules[i]);
                    lemma_restored_within::<R>(s.rules[i], Seq::empty(), s.suppressed);
                }
                lemma_rules_within::<R>(t.rules, s.rules, s.suppressed);
                lemma_run_within::<R>(t, walk, pos, ids);
            }
        },
        Step::Finished(_) => {
            lemma_fini_all::<R>(
                s.rules,
                EntryCacheView {
                    last_processed_commit: s.first_commit,
                    last_processed_rules: s.departed + enabled_rule_ids::<R>(s.rules),
                    ..s.cache
                },
                s.rules.len() as int,
            );
            lemma_joined_held(s.departed, enabled_rule_ids::<R>(s.rules));
        },
    }
}

/// A fresh engine keeps every id that its rules have enabled.
proof fn lemma_start_on_course<R: Rule>(rules: Seq<R::V>, cache: EntryCacheView)
    ensures
        on_course::<R>(initial_state::<R>(rules, cache), enabled_rule_ids::<R>(rules)),
{
    let s = initial_state::<R>(rules, cache);
    assert forall|i: int| 0 <= i < rules.len() implies R::descriptors(#[trigger] s.rules[i])
        == R::descriptors(rules[i]) by {
        R::lemma_descriptors_stay(rules[i], arbitrary(), arbitrary(), cache);
    }
    lemma_enabled_rule_ids::<R>(rules);
    assert forall|id: usize| #[trigger] enabled_rule_ids::<R>(rules).contains(id) implies exists|
        i: int,
    | 0 <= i < s.rules.len() && keeps(R::descriptors(#[trigger] s.rules[i]), s.suppressed, id) by {
        let i = choose|i: int|
            0 <= i < rules.len() && #[trigger] enabled_ids(R::descriptors(rules[i])).contains(id);
        let ds = R::descriptors(rules[i]);
        lemma_enabled_ids(ds);
        let j = choose|j: int| 0 <= j < ds.len() && (#[trigger] ds[j]).enabled && ds[j].id == id;
        assert(keeps(R::descriptors(s.rules[i]), s.suppressed, id));
    }
}

/// A run leaves a record that names the first commit of the walk, and holds
/// just the ids that the rules had enabled when the run began: also those
/// of rules that were finalized early and left, and no other.
pub proof fn lemma_run_leaves_record<R: Rule>(
    rules: Seq<R::V>,
    cache: EntryCacheView,
    walk: Seq<WalkItem>,
)
    ensures
        forall|id: usize|
            enabled_rule_ids::<R>(rules).contains(id) <==> #[trigger] run_spec::<R>(
                rules,
                cache,
                walk,
            ).0.cache.last_processed_rules.contains(id),
        run_spec::<R>(rules, cache, walk).0.cache.last_processed_commit == if walk.len() > 0 {
            Some(walk[0].commit.id)
        } else {
            None
        },
{
    let s = initial_state::<R>(rules, cache);
    lemma_start_on_course::<R>(rules, cache);
    lemma_run_on_course::<R>(s, walk, 0, enabled_rule_ids::<R>(rules));
    assert forall|i: int| 0 <= i < rules.len() implies R::descriptors(#[trigger] s.rules[i])
        == R::descriptors(rules[i]) by {
        R::lemma_descriptors_stay(rules[i], arbitrary(), arbitrary(), cache);
    }
    lemma_enabled_rule_ids_of_descriptors::<R>(s.rules, rules);
    lemma_run_within::<R>(s, walk, 0, enabled_rule_ids::<R>(rules));
}

/// Running the engine twice in a row with the same rules on the same walk
/// grants nothing the second time, and no rule is shown a commit then,
/// whatever the record held before the first run.
///
/// This holds of rules that grant nothing before they have seen a commit: a
/// rule that grants at the end of every run, whatever it saw, grants at the
/// end of the second too.
pub proof fn lemma_rerun_grants_nothing<R: Rule>(
    rules: Seq<R::V>,
    cache: EntryCacheView,
    walk: Seq<WalkItem>,
)
    requires
        forall|i: int| 0 <= i < rules.len() ==> quiet_when_fresh::<R>(#[trigger] rules[i]),
    ensures
        run_spec::<R>(rules, run_spec::<R>(rules, cache, walk).0.cache, walk).1 == Seq::<
            Achievement,
        >::empty(),
        run_spec::<R>(
            rules,
            run_spec::<R>(rules, cache, walk).0.cache,
            walk,
        ).0.num_commits_processed == 0,
{
    lemma_run_leaves_record::<R>(rules, cache, walk);
    lemma_second_run::<R>(rules, run_spec::<R>(rules, cache, walk).0.cache, walk);
}

} // verus!
