//! That the engine hands out only what its rules have granted by right.
use vstd::prelude::*;

use crate::achievement::achievement::{
    disabled_everywhere, enabled_ids, Achievement, AchievementDescriptor, Rule,
};
use crate::achievement::guarantees::{
    lemma_changes_keep_descriptors, lemma_covered, lemma_enabled_ids, lemma_enabled_rule_ids,
    lemma_toggled_all, lemma_with_all, toggled_all,
};
use crate::achievement::model::{
    all_with, change_dispatched, changes_dispatched, commit_fed, counted, covered, diff_dispatched,
    diff_end_grant, diff_ended, diff_spec, diff_started, drained, early_exit_spec, enabled_rule_ids,
    finalize_all_spec, grants_of, initial_state, interests, next_spec, none_interested, prefinalize,
    process_commit_spec, retained, run_spec, walk_ended, with_all, EngineView, Step,
};
use crate::cache::EntryCacheView;
use crate::git::{Commit, CommitId, TreeChange, WalkItem};

verus! {

/// Whether one of the descriptors is enabled and has the name.
pub open spec fn grants_as(ds: Seq<AchievementDescriptor>, name: &'static str) -> bool {
    exists|j: int| 0 <= j < ds.len() && (#[trigger] ds[j]).enabled && ds[j].name == name
}

/// Whether each of the achievements is granted to one of the commits, under
/// the name of one of the descriptors that is enabled.
pub open spec fn well_granted(
    ds: Seq<AchievementDescriptor>,
    grants: Seq<Achievement>,
    commits: Set<CommitId>,
) -> bool {
    forall|k: int|
        0 <= k < grants.len() ==> commits.contains((#[trigger] grants[k]).commit) && grants_as(
            ds,
            grants[k].name,
        )
}

/// Whether rules of the type `R` keep to what is asked of a rule when it
/// grants: an achievement goes to the commit at hand, or when the rule is
/// finalized to a commit that the rule has seen and still holds, and it is
/// granted under a descriptor that the rule owns and that is enabled then.
/// `held` says which commits a rule holds.
pub open spec fn grants_honestly<R: Rule>(held: spec_fn(R::V) -> Set<CommitId>) -> bool {
    &&& forall|m: R::V, ds: Seq<AchievementDescriptor>|
        held(#[trigger] R::with_descriptors(m, ds)) == held(m)
    &&& forall|m: R::V, cache: EntryCacheView|
        held(#[trigger] R::init_cache_spec(m, cache)) == held(m)
    &&& forall|m: R::V, c: Commit|
        held((#[trigger] R::process_spec(m, c)).0).subset_of(held(m).insert(c.id)) && well_granted(
            R::descriptors(m),
            R::process_spec(m, c).1,
            set![c.id],
        )
    &&& forall|m: R::V, c: Commit|
        held(#[trigger] R::diff_start_spec(m, c)).subset_of(held(m).insert(c.id))
    &&& forall|m: R::V, c: Commit, change: TreeChange|
        held((#[trigger] R::diff_change_spec(m, c, change)).0).subset_of(held(m).insert(c.id))
    &&& forall|m: R::V, c: Commit|
        held((#[trigger] R::diff_end_spec(m, c)).0).subset_of(held(m).insert(c.id))
            && well_granted(R::descriptors(m), R::diff_end_spec(m, c).1, set![c.id])
    &&& forall|m: R::V|
        held((#[trigger] R::finalize_spec(m)).0).subset_of(held(m)) && well_granted(
            R::descriptors(m),
            R::finalize_spec(m).1,
            held(m),
        )
}

/// The ids of the first `n` commits of a walk.
pub open spec fn walked(walk: Seq<WalkItem>, n: int) -> Set<CommitId> {
    Set::new(
        |id: CommitId|
            exists|k: int| 0 <= k < n && k < walk.len() && (#[trigger] walk[k]).commit.id == id,
    )
}

/// Whether one of the rules owns a descriptor with the name and the id.
pub open spec fn owns<R: Rule>(rules: Seq<R::V>, name: &'static str, id: usize) -> bool {
    exists|i: int, j: int|
        0 <= i < rules.len() && 0 <= j < R::descriptors(rules[i]).len() && (
        #[trigger] R::descriptors(rules[i])[j]).name == name && R::descriptors(rules[i])[j].id
            == id
}

/// Whether the rules may grant under the name: one of them owns a
/// descriptor with the name, and its id is one that the rules have enabled.
pub open spec fn may_grant<R: Rule>(rules: Seq<R::V>, name: &'static str) -> bool {
    exists|id: usize|
        enabled_rule_ids::<R>(rules).contains(id) && #[trigger] owns::<R>(rules, name, id)
}

/// Whether an achievement goes to a commit of the walk, under a name that
/// the rules may grant under.
pub open spec fn is_earned<R: Rule>(a: Achievement, rules: Seq<R::V>, walk: Seq<WalkItem>) -> bool {
    walked(walk, walk.len() as int).contains(a.commit) && may_grant::<R>(rules, a.name)
}

/// Whether each of the ids is one that the rules have enabled.
pub open spec fn all_enabled<R: Rule>(rules: Seq<R::V>, ids: Seq<usize>) -> bool {
    forall|id: usize| #[trigger] ids.contains(id) ==> enabled_rule_ids::<R>(rules).contains(id)
}

/// Whether a rule in the engine is in order: it holds only commits of the
/// walk so far, each of its descriptors is one of the rules that the run
/// started with, by name and id, and each that is enabled has an id that
/// those rules have enabled.
pub open spec fn rule_in_order<R: Rule>(
    m: R::V,
    rules: Seq<R::V>,
    walk: Seq<WalkItem>,
    pos: int,
    held: spec_fn(R::V) -> Set<CommitId>,
) -> bool {
    &&& held(m).subset_of(walked(walk, pos))
    &&& forall|j: int|
        0 <= j < R::descriptors(m).len() ==> owns::<R>(
            rules,
            (#[trigger] R::descriptors(m)[j]).name,
            R::descriptors(m)[j].id,
        ) && (R::descriptors(m)[j].enabled ==> enabled_rule_ids::<R>(rules).contains(
            R::descriptors(m)[j].id,
        ))
}

/// Whether every rule of the sequence is in order.
pub open spec fn rules_in_order<R: Rule>(
    now: Seq<R::V>,
    rules: Seq<R::V>,
    walk: Seq<WalkItem>,
    pos: int,
    held: spec_fn(R::V) -> Set<CommitId>,
) -> bool {
    forall|i: int|
        0 <= i < now.len() ==> rule_in_order::<R>(#[trigger] now[i], rules, walk, pos, held)
}

/// Whether each of the achievements is earned.
pub open spec fn all_earned<R: Rule>(
    grants: Seq<Achievement>,
    rules: Seq<R::V>,
    walk: Seq<WalkItem>,
) -> bool {
    forall|k: int| 0 <= k < grants.len() ==> is_earned::<R>(#[trigger] grants[k], rules, walk)
}

/// Whether two descriptors of the rules that have the same id are the same.
pub open spec fn ids_tell_apart<R: Rule>(rules: Seq<R::V>) -> bool {
    forall|i: int, j: int, k: int, l: int|
        0 <= i < rules.len() && 0 <= j < R::descriptors(rules[i]).len() && 0 <= k < rules.len()
            && 0 <= l < R::descriptors(rules[k]).len() && (#[trigger] R::descriptors(
            rules[i],
        )[j]).id == (#[trigger] R::descriptors(rules[k])[l]).id ==> R::descriptors(rules[i])[j]
            == R::descriptors(rules[k])[l]
}

/// Whether one of the rules owns a descriptor that is enabled and has the
/// name.
pub open spec fn grants_under<R: Rule>(rules: Seq<R::V>, name: &'static str) -> bool {
    exists|i: int| 0 <= i < rules.len() && grants_as(R::descriptors(#[trigger] rules[i]), name)
}

/// Whether each of the achievements goes to a commit of the walk, under the
/// name of a descriptor of the rules that is enabled.
pub open spec fn all_by_enabled<R: Rule>(
    grants: Seq<Achievement>,
    rules: Seq<R::V>,
    walk: Seq<WalkItem>,
) -> bool {
    forall|k: int|
        0 <= k < grants.len() ==> walked(walk, walk.len() as int).contains(
            (#[trigger] grants[k]).commit,
        ) && grants_under::<R>(rules, grants[k].name)
}

/// Where the ids tell the descriptors of the rules apart, what is earned
/// was granted under the name of a descriptor that the rules have enabled.
pub proof fn lemma_earned_by_enabled<R: Rule>(
    grants: Seq<Achievement>,
    rules: Seq<R::V>,
    walk: Seq<WalkItem>,
)
    requires
        ids_tell_apart::<R>(rules),
        all_earned::<R>(grants, rules, walk),
    ensures
        all_by_enabled::<R>(grants, rules, walk),
{
    lemma_enabled_rule_ids::<R>(rules);
    assert forall|n: int| 0 <= n < grants.len() implies walked(walk, walk.len() as int).contains(
        (#[trigger] grants[n]).commit,
    ) && grants_under::<R>(rules, grants[n].name) by {
        let name = grants[n].name;
        assert(is_earned::<R>(grants[n], rules, walk));
        let id = choose|id: usize|
            enabled_rule_ids::<R>(rules).contains(id) && #[trigger] owns::<R>(rules, name, id);
        let (i, j) = choose|i: int, j: int|
            0 <= i < rules.len() && 0 <= j < R::descriptors(rules[i]).len() && (
            #[trigger] R::descriptors(rules[i])[j]).name == name && R::descriptors(rules[i])[j].id
                == id;
        let k = choose|k: int|
            0 <= k < rules.len() && #[trigger] enabled_ids(R::descriptors(rules[k])).contains(id);
        let ds = R::descriptors(rules[k]);
        lemma_enabled_ids(ds);
        let l = choose|l: int| 0 <= l < ds.len() && (#[trigger] ds[l]).enabled && ds[l].id == id;
        assert(R::descriptors(rules[i])[j] == R::descriptors(rules[k])[l]);
        assert(grants_as(R::descriptors(rules[k]), name));
    }
}

/// What a rule in order grants well is earned.
proof fn lemma_well_granted_is_earned<R: Rule>(
    m: R::V,
    grants: Seq<Achievement>,
    commits: Set<CommitId>,
    rules: Seq<R::V>,
    walk: Seq<WalkItem>,
    pos: int,
    held: spec_fn(R::V) -> Set<CommitId>,
)
    requires
        rule_in_order::<R>(m, rules, walk, pos, held),
        well_granted(R::descriptors(m), grants, commits),
        commits.subset_of(walked(walk, walk.len() as int)),
    ensures
        all_earned::<R>(grants, rules, walk),
{
    assert forall|k: int| 0 <= k < grants.len() implies is_earned::<R>(
        #[trigger] grants[k],
        rules,
        walk,
    ) by {
        let ds = R::descriptors(m);
        let j = choose|j: int|
            0 <= j < ds.len() && (#[trigger] ds[j]).enabled && ds[j].name == grants[k].name;
        assert(owns::<R>(rules, ds[j].name, ds[j].id));
        assert(enabled_rule_ids::<R>(rules).contains(ds[j].id));
        assert(commits.contains(grants[k].commit));
    }
}

/// Rules that each grant what is earned grant together what is earned.
proof fn lemma_grants_earned<R: Rule>(
    now: Seq<R::V>,
    grant: spec_fn(R::V) -> Seq<Achievement>,
    n: int,
    rules: Seq<R::V>,
    walk: Seq<WalkItem>,
)
    requires
        n <= now.len(),
        forall|i: int| 0 <= i < n ==> all_earned::<R>(#[trigger] grant(now[i]), rules, walk),
    ensures
        all_earned::<R>(grants_of(now, grant, n), rules, walk),
    decreases n,
{
    if n > 0 {
        lemma_grants_earned::<R>(now, grant, n - 1, rules, walk);
        let before = grants_of(now, grant, n - 1);
        let last = grant(now[n - 1]);
        assert(all_earned::<R>(last, rules, walk));
        assert forall|k: int| 0 <= k < (before + last).len() implies is_earned::<R>(
            #[trigger] (before + last)[k],
            rules,
            walk,
        ) by {
            if k < before.len() {
                assert((before + last)[k] == before[k]);
            } else {
                assert((before + last)[k] == last[k - before.len()]);
            }
        }
    }
}

/// The commits of the walk so far are commits of the walk later on.
proof fn lemma_walked_grows(walk: Seq<WalkItem>, a: int, b: int)
    requires
        a <= b,
    ensures
        walked(walk, a).subset_of(walked(walk, b)),
{
    assert forall|id: CommitId| walked(walk, a).contains(id) implies walked(walk, b).contains(
        id,
    ) by {
        let k = choose|k: int| 0 <= k < a && k < walk.len() && (#[trigger] walk[k]).commit.id == id;
        assert(0 <= k < b && k < walk.len() && walk[k].commit.id == id);
    }
}

/// Enabling or disabling descriptors of a rule in order leaves it in order.
proof fn lemma_with_all_in_order<R: Rule>(
    m: R::V,
    ids: Seq<usize>,
    enabled: bool,
    rules: Seq<R::V>,
    walk: Seq<WalkItem>,
    pos: int,
    held: spec_fn(R::V) -> Set<CommitId>,
)
    requires
        grants_honestly::<R>(held),
        rule_in_order::<R>(m, rules, walk, pos, held),
        enabled ==> all_enabled::<R>(rules, ids),
    ensures
        rule_in_order::<R>(with_all::<R>(m, ids, enabled), rules, walk, pos, held),
{
    lemma_with_all::<R>(m, ids, enabled);
    let ds = R::descriptors(m);
    lemma_toggled_all(ds, ids, enabled);
    let after = with_all::<R>(m, ids, enabled);
    assert(held(R::with_descriptors(m, toggled_all(ds, ids, enabled))) == held(m));
    assert forall|j: int| 0 <= j < R::descriptors(after).len() implies owns::<R>(
        rules,
        (#[trigger] R::descriptors(after)[j]).name,
        R::descriptors(after)[j].id,
    ) && (R::descriptors(after)[j].enabled ==> enabled_rule_ids::<R>(rules).contains(
        R::descriptors(after)[j].id,
    )) by {
        assert(R::descriptors(after)[j] == toggled_all(ds, ids, enabled)[j]);
        assert(R::descriptors(after)[j].name == ds[j].name);
        assert(R::descriptors(after)[j].id == ds[j].id);
        assert(owns::<R>(rules, ds[j].name, ds[j].id));
    }
}

/// A rule in order that is finalized stays in order, and what it grants is
/// earned.
proof fn lemma_finalize_in_order<R: Rule>(
    m: R::V,
    rules: Seq<R::V>,
    walk: Seq<WalkItem>,
    pos: int,
    held: spec_fn(R::V) -> Set<CommitId>,
)
    requires
        grants_honestly::<R>(held),
        rule_in_order::<R>(m, rules, walk, pos, held),
        pos <= walk.len(),
    ensures
        rule_in_order::<R>(R::finalize_spec(m).0, rules, walk, pos, held),
        all_earned::<R>(R::finalize_spec(m).1, rules, walk),
{
    R::lemma_descriptors_stay(m, arbitrary(), arbitrary(), arbitrary());
    let done = R::finalize_spec(m);
    assert(held(done.0).subset_of(held(m)));
    lemma_walked_grows(walk, pos, walk.len() as int);
    lemma_well_granted_is_earned::<R>(m, done.1, held(m), rules, walk, pos, held);
}

/// Rules in order that are finalized, after the suppressed ids were enabled
/// again, stay in order, and what they grant is earned.
proof fn lemma_finalize_all_in_order<R: Rule>(
    s: EngineView<R::V>,
    rules: Seq<R::V>,
    walk: Seq<WalkItem>,
    pos: int,
    held: spec_fn(R::V) -> Set<CommitId>,
)
    requires
        grants_honestly::<R>(held),
        rules_in_order::<R>(s.rules, rules, walk, pos, held),
        all_enabled::<R>(rules, s.suppressed),
        pos <= walk.len(),
    ensures
        rules_in_order::<R>(finalize_all_spec::<R>(s).0.rules, rules, walk, pos, held),
        all_earned::<R>(finalize_all_spec::<R>(s).1, rules, walk),
{
    let restored = all_with::<R>(s.rules, s.suppressed, true);
    let grant = |m: R::V| R::finalize_spec(m).1;
    assert forall|i: int| 0 <= i < restored.len() implies rule_in_order::<R>(
        R::finalize_spec(#[trigger] restored[i]).0,
        rules,
        walk,
        pos,
        held,
    ) && all_earned::<R>(grant(restored[i]), rules, walk) by {
        assert(rule_in_order::<R>(s.rules[i], rules, walk, pos, held));
        lemma_with_all_in_order::<R>(s.rules[i], s.suppressed, true, rules, walk, pos, held);
        lemma_finalize_in_order::<R>(restored[i], rules, walk, pos, held);
    }
    lemma_grants_earned::<R>(restored, grant, restored.len() as int, rules, walk);
    let after = finalize_all_spec::<R>(s).0.rules;
    assert forall|i: int| 0 <= i < after.len() implies rule_in_order::<R>(
        #[trigger] after[i],
        rules,
        walk,
        pos,
        held,
    ) by {
        assert(after[i] == R::finalize_spec(restored[i]).0);
    }
}

/// The rules that are retained are among the rules.
proof fn lemma_retained_in_order<R: Rule>(
    now: Seq<R::V>,
    rules: Seq<R::V>,
    walk: Seq<WalkItem>,
    pos: int,
    held: spec_fn(R::V) -> Set<CommitId>,
)
    requires
        rules_in_order::<R>(now, rules, walk, pos, held),
    ensures
        rules_in_order::<R>(retained::<R>(now), rules, walk, pos, held),
    decreases now.len(),
{
    if now.len() > 0 {
        let front = now.drop_last();
        assert forall|i: int| 0 <= i < front.len() implies rule_in_order::<R>(
            #[trigger] front[i],
            rules,
            walk,
            pos,
            held,
        ) by {
            assert(front[i] == now[i]);
        }
        lemma_retained_in_order::<R>(front, rules, walk, pos, held);
        assert(rule_in_order::<R>(now[now.len() - 1], rules, walk, pos, held));
        let kept = retained::<R>(now);
        assert forall|i: int| 0 <= i < kept.len() implies rule_in_order::<R>(
            #[trigger] kept[i],
            rules,
            walk,
            pos,
            held,
        ) by {
            if i < retained::<R>(front).len() {
                assert(kept[i] == retained::<R>(front)[i]);
            } else {
                assert(kept[i] == now.last());
            }
        }
    }
}

/// Rules in order stay in order as the walk goes on.
proof fn lemma_in_order_later<R: Rule>(
    now: Seq<R::V>,
    rules: Seq<R::V>,
    walk: Seq<WalkItem>,
    pos: int,
    later: int,
    held: spec_fn(R::V) -> Set<CommitId>,
)
    requires
        rules_in_order::<R>(now, rules, walk, pos, held),
        pos <= later,
    ensures
        rules_in_order::<R>(now, rules, walk, later, held),
{
    lemma_walked_grows(walk, pos, later);
    assert forall|i: int| 0 <= i < now.len() implies rule_in_order::<R>(
        #[trigger] now[i],
        rules,
        walk,
        later,
        held,
    ) by {
        assert(rule_in_order::<R>(now[i], rules, walk, pos, held));
    }
}

/// A rule in order stays in order when it comes to hold at most one more
/// commit, which is of the walk so far, and keeps its descriptors.
proof fn lemma_step_in_order<R: Rule>(
    m: R::V,
    after: R::V,
    id: CommitId,
    rules: Seq<R::V>,
    walk: Seq<WalkItem>,
    pos: int,
    held: spec_fn(R::V) -> Set<CommitId>,
)
    requires
        rule_in_order::<R>(m, rules, walk, pos, held),
        held(after).subset_of(held(m).insert(id)),
        R::descriptors(after) == R::descriptors(m),
        walked(walk, pos).contains(id),
    ensures
        rule_in_order::<R>(after, rules, walk, pos, held),
{
}

/// A rule in order that is finalized early stays in order, and what it
/// grants is earned.
proof fn lemma_prefinalize_in_order<R: Rule>(
    q: R::V,
    suppressed: Seq<usize>,
    rules: Seq<R::V>,
    walk: Seq<WalkItem>,
    pos: int,
    held: spec_fn(R::V) -> Set<CommitId>,
)
    requires
        grants_honestly::<R>(held),
        rule_in_order::<R>(q, rules, walk, pos, held),
        all_enabled::<R>(rules, suppressed),
        pos <= walk.len(),
    ensures
        rule_in_order::<R>(prefinalize::<R>(q, suppressed).0, rules, walk, pos, held),
        all_earned::<R>(prefinalize::<R>(q, suppressed).1, rules, walk),
{
    if disabled_everywhere(R::descriptors(q)) {
        lemma_with_all_in_order::<R>(q, suppressed, true, rules, walk, pos, held);
        let on = with_all::<R>(q, suppressed, true);
        lemma_finalize_in_order::<R>(on, rules, walk, pos, held);
        lemma_with_all_in_order::<R>(
            R::finalize_spec(on).0,
            suppressed,
            false,
            rules,
            walk,
            pos,
            held,
        );
    }
}

/// What the engine decides before a commit leaves rules in order in order,
/// and what is granted then is earned.
proof fn lemma_early_exit_in_order<R: Rule>(
    s: EngineView<R::V>,
    oid: CommitId,
    rules: Seq<R::V>,
    walk: Seq<WalkItem>,
    pos: int,
    held: spec_fn(R::V) -> Set<CommitId>,
)
    requires
        grants_honestly::<R>(held),
        rules_in_order::<R>(s.rules, rules, walk, pos, held),
        all_enabled::<R>(rules, s.suppressed),
        pos <= walk.len(),
    ensures
        rules_in_order::<R>(early_exit_spec::<R>(s, oid).0.rules, rules, walk, pos, held),
        all_enabled::<R>(rules, early_exit_spec::<R>(s, oid).0.suppressed),
        all_earned::<R>(early_exit_spec::<R>(s, oid).1, rules, walk),
{
    if s.cache.last_processed_commit != Some(oid) {
    } else {
        let hit = covered(s.cache.last_processed_rules, enabled_rule_ids::<R>(s.rules));
        let suppressed = s.suppressed + hit;
        let quiet = all_with::<R>(s.rules, hit, false);
        lemma_covered(s.cache.last_processed_rules, enabled_rule_ids::<R>(s.rules));
        lemma_enabled_rule_ids::<R>(s.rules);
        assert forall|id: usize| #[trigger] suppressed.contains(id) implies enabled_rule_ids::<R>(
            rules,
        ).contains(id) by {
            let k = choose|k: int| 0 <= k < suppressed.len() && suppressed[k] == id;
            if k < s.suppressed.len() {
                assert(s.suppressed[k] == id);
                assert(s.suppressed.contains(id));
            } else {
                assert(hit[k - s.suppressed.len()] == id);
                assert(hit.contains(id));
                let i = choose|i: int|
                    0 <= i < s.rules.len() && #[trigger] enabled_ids(
                        R::descriptors(s.rules[i]),
                    ).contains(id);
                let ds = R::descriptors(s.rules[i]);
                lemma_enabled_ids(ds);
                let j = choose|j: int|
                    0 <= j < ds.len() && (#[trigger] ds[j]).enabled && ds[j].id == id;
                assert(rule_in_order::<R>(s.rules[i], rules, walk, pos, held));
            }
        }
        assert forall|i: int| 0 <= i < quiet.len() implies rule_in_order::<R>(
            #[trigger] quiet[i],
            rules,
            walk,
            pos,
            held,
        ) by {
            assert(rule_in_order::<R>(s.rules[i], rules, walk, pos, held));
            lemma_with_all_in_order::<R>(s.rules[i], hit, false, rules, walk, pos, held);
        }
        if enabled_rule_ids::<R>(quiet).len() == 0 {
            let seen = EngineView {
                first_commit: if s.first_commit is None {
                    Some(oid)
                } else {
                    s.first_commit
                },
                ..s
            };
            lemma_finalize_all_in_order::<R>(
                EngineView { rules: quiet, suppressed, has_finalized: true, ..seen },
                rules,
                walk,
                pos,
                held,
            );
        } else {
            let early = Seq::new(quiet.len(), |i: int| prefinalize::<R>(quiet[i], suppressed).0);
            let grant = |m: R::V| prefinalize::<R>(m, suppressed).1;
            assert forall|i: int| 0 <= i < quiet.len() implies rule_in_order::<R>(
                #[trigger] early[i],
                rules,
                walk,
                pos,
                held,
            ) by {
                lemma_prefinalize_in_order::<R>(quiet[i], suppressed, rules, walk, pos, held);
            }
            assert forall|i: int| 0 <= i < quiet.len() implies all_earned::<R>(
                #[trigger] grant(quiet[i]),
                rules,
                walk,
            ) by {
                lemma_prefinalize_in_order::<R>(quiet[i], suppressed, rules, walk, pos, held);
            }
            lemma_grants_earned::<R>(quiet, grant, quiet.len() as int, rules, walk);
            lemma_retained_in_order::<R>(early, rules, walk, pos, held);
        }
    }
}

/// Dispatching changes of a commit of the walk so far leaves rules in order
/// in order.
proof fn lemma_changes_in_order<R: Rule>(
    now: Seq<R::V>,
    interest: Seq<bool>,
    commit: Commit,
    changes: Seq<TreeChange>,
    from: int,
    rules: Seq<R::V>,
    walk: Seq<WalkItem>,
    pos: int,
    held: spec_fn(R::V) -> Set<CommitId>,
)
    requires
        grants_honestly::<R>(held),
        rules_in_order::<R>(now, rules, walk, pos, held),
        walked(walk, pos).contains(commit.id),
    ensures
        rules_in_order::<R>(
            changes_dispatched::<R>(now, interest, commit, changes, from).0,
            rules,
            walk,
            pos,
            held,
        ),
    decreases changes.len() - from,
{
    if from < 0 || from >= changes.len() {
    } else {
        let next = change_dispatched::<R>(now, interest, commit, changes[from]);
        assert forall|i: int| 0 <= i < next.0.len() implies rule_in_order::<R>(
            #[trigger] next.0[i],
            rules,
            walk,
            pos,
            held,
        ) by {
            assert(rule_in_order::<R>(now[i], rules, walk, pos, held));
            R::lemma_descriptors_stay(now[i], commit, changes[from], arbitrary());
            if interest[i] {
                lemma_step_in_order::<R>(
                    now[i],
                    R::diff_change_spec(now[i], commit, changes[from]).0,
                    commit.id,
                    rules,
                    walk,
                    pos,
                    held,
                );
            }
        }
        if !none_interested(next.1) {
            lemma_changes_in_order::<R>(
                next.0,
                next.1,
                commit,
                changes,
                from + 1,
                rules,
                walk,
                pos,
                held,
            );
        }
    }
}

/// The diff of a commit of the walk so far leaves rules in order in order,
/// and what is granted at its end is earned.
proof fn lemma_diff_in_order<R: Rule>(
    s: EngineView<R::V>,
    commit: Commit,
    changes: Seq<TreeChange>,
    rules: Seq<R::V>,
    walk: Seq<WalkItem>,
    pos: int,
    held: spec_fn(R::V) -> Set<CommitId>,
)
    requires
        grants_honestly::<R>(held),
        rules_in_order::<R>(s.rules, rules, walk, pos, held),
        walked(walk, pos).contains(commit.id),
        pos <= walk.len(),
    ensures
        rules_in_order::<R>(diff_spec::<R>(s, commit, changes).0.rules, rules, walk, pos, held),
        all_earned::<R>(diff_spec::<R>(s, commit, changes).1, rules, walk),
{
    let started = diff_started::<R>(s.rules, commit);
    assert forall|i: int| 0 <= i < started.len() implies rule_in_order::<R>(
        #[trigger] started[i],
        rules,
        walk,
        pos,
        held,
    ) by {
        assert(rule_in_order::<R>(s.rules[i], rules, walk, pos, held));
        R::lemma_descriptors_stay(s.rules[i], commit, arbitrary(), arbitrary());
        if R::interested(s.rules[i]) {
            lemma_step_in_order::<R>(
                s.rules[i],
                R::diff_start_spec(s.rules[i], commit),
                commit.id,
                rules,
                walk,
                pos,
                held,
            );
        }
    }
    let shown = diff_dispatched::<R>(s.rules, commit, changes);
    if commit.parents@.len() >= 2 {
    } else {
        lemma_changes_in_order::<R>(
            started,
            interests::<R>(s.rules),
            commit,
            changes,
            0,
            rules,
            walk,
            pos,
            held,
        );
        lemma_changes_keep_descriptors::<R>(started, interests::<R>(s.rules), commit, changes, 0);
    }
    let grant = |m: R::V| diff_end_grant::<R>(m, commit);
    let ended = diff_ended::<R>(shown.0, commit);
    lemma_walked_grows(walk, pos, walk.len() as int);
    assert forall|i: int| 0 <= i < shown.0.len() implies rule_in_order::<R>(
        #[trigger] ended[i],
        rules,
        walk,
        pos,
        held,
    ) && all_earned::<R>(grant(shown.0[i]), rules, walk) by {
        let m = shown.0[i];
        assert(rule_in_order::<R>(m, rules, walk, pos, held));
        R::lemma_descriptors_stay(m, commit, arbitrary(), arbitrary());
        if R::interested(m) {
            lemma_step_in_order::<R>(
                m,
                R::diff_end_spec(m, commit).0,
                commit.id,
                rules,
                walk,
                pos,
                held,
            );
            assert(set![commit.id].subset_of(walked(walk, walk.len() as int)));
            lemma_well_granted_is_earned::<R>(
                m,
                R::diff_end_spec(m, commit).1,
                set![commit.id],
                rules,
                walk,
                pos,
                held,
            );
        }
    }
    lemma_grants_earned::<R>(shown.0, grant, shown.0.len() as int, rules, walk);
}

/// Joined sequences of earned achievements are earned.
proof fn lemma_earned_joined<R: Rule>(
    a: Seq<Achievement>,
    b: Seq<Achievement>,
    rules: Seq<R::V>,
    walk: Seq<WalkItem>,
)
    requires
        all_earned::<R>(a, rules, walk),
        all_earned::<R>(b, rules, walk),
    ensures
        all_earned::<R>(a + b, rules, walk),
{
    assert forall|k: int| 0 <= k < (a + b).len() implies is_earned::<R>(
        #[trigger] (a + b)[k],
        rules,
        walk,
    ) by {
        if k < a.len() {
            assert((a + b)[k] == a[k]);
        } else {
            assert((a + b)[k] == b[k - a.len()]);
        }
    }
}

/// The next commit of the walk leaves rules in order in order, and what is
/// granted for it is earned.
proof fn lemma_commit_in_order<R: Rule>(
    s: EngineView<R::V>,
    rules: Seq<R::V>,
    walk: Seq<WalkItem>,
    pos: int,
    held: spec_fn(R::V) -> Set<CommitId>,
)
    requires
        grants_honestly::<R>(held),
        rules_in_order::<R>(s.rules, rules, walk, pos, held),
        all_enabled::<R>(rules, s.suppressed),
        all_earned::<R>(s.pending, rules, walk),
        0 <= pos < walk.len(),
    ensures
        rules_in_order::<R>(commit_fed::<R>(s, walk[pos]).rules, rules, walk, pos + 1, held),
        all_enabled::<R>(rules, commit_fed::<R>(s, walk[pos]).suppressed),
        all_earned::<R>(commit_fed::<R>(s, walk[pos]).pending, rules, walk),
{
    let commit = walk[pos].commit;
    let changes = walk[pos].changes@;
    if s.has_finalized || s.in_commit {
        lemma_in_order_later::<R>(s.rules, rules, walk, pos, pos + 1, held);
    } else {
        lemma_early_exit_in_order::<R>(s, commit.id, rules, walk, pos, held);
        let early = early_exit_spec::<R>(s, commit.id);
        lemma_in_order_later::<R>(early.0.rules, rules, walk, pos, pos + 1, held);
        assert(walked(walk, pos + 1).contains(commit.id)) by {
            assert(walk[pos].commit.id == commit.id);
        };
        lemma_walked_grows(walk, pos + 1, walk.len() as int);
        if early.2 {
            let now = early.0.rules;
            let processed = Seq::new(now.len(), |i: int| R::process_spec(now[i], commit).0);
            let grant = |m: R::V| R::process_spec(m, commit).1;
            assert forall|i: int| 0 <= i < now.len() implies rule_in_order::<R>(
                #[trigger] processed[i],
                rules,
                walk,
                pos + 1,
                held,
            ) && all_earned::<R>(grant(now[i]), rules, walk) by {
                assert(rule_in_order::<R>(now[i], rules, walk, pos + 1, held));
                R::lemma_descriptors_stay(now[i], commit, arbitrary(), arbitrary());
                lemma_step_in_order::<R>(
                    now[i],
                    R::process_spec(now[i], commit).0,
                    commit.id,
                    rules,
                    walk,
                    pos + 1,
                    held,
                );
                assert(set![commit.id].subset_of(walked(walk, walk.len() as int)));
                lemma_well_granted_is_earned::<R>(
                    now[i],
                    R::process_spec(now[i], commit).1,
                    set![commit.id],
                    rules,
                    walk,
                    pos + 1,
                    held,
                );
            }
            lemma_grants_earned::<R>(now, grant, now.len() as int, rules, walk);
            let counted_state = EngineView {
                rules: processed,
                num_commits_processed: counted(
                    early.0.num_commits_processed,
                ),
                ..early.0
            };
            lemma_diff_in_order::<R>(counted_state, commit, changes, rules, walk, pos + 1, held);
            let diffed = diff_spec::<R>(counted_state, commit, changes);
            lemma_earned_joined::<R>(early.1, grants_of(now, grant, now.len() as int), rules, walk);
            lemma_earned_joined::<R>(
                early.1 + grants_of(now, grant, now.len() as int),
                diffed.1,
                rules,
                walk,
            );
            let done = process_commit_spec::<R>(s, commit, changes);
            assert(done.0.pending == s.pending);
            lemma_earned_joined::<R>(s.pending, done.1, rules, walk);
        } else {
            assert(early.0.pending == s.pending);
            lemma_earned_joined::<R>(s.pending, early.1, rules, walk);
        }
    }
}

/// The end of the walk leaves rules in order in order, and what is granted
/// then is earned.
proof fn lemma_walk_end_in_order<R: Rule>(
    s: EngineView<R::V>,
    rules: Seq<R::V>,
    walk: Seq<WalkItem>,
    pos: int,
    held: spec_fn(R::V) -> Set<CommitId>,
)
    requires
        grants_honestly::<R>(held),
        rules_in_order::<R>(s.rules, rules, walk, pos, held),
        all_enabled::<R>(rules, s.suppressed),
        all_earned::<R>(s.pending, rules, walk),
        pos <= walk.len(),
    ensures
        rules_in_order::<R>(walk_ended::<R>(s).rules, rules, walk, pos, held),
        all_enabled::<R>(rules, walk_ended::<R>(s).suppressed),
        all_earned::<R>(walk_ended::<R>(s).pending, rules, walk),
{
    if !s.has_finalized {
        lemma_finalize_all_in_order::<R>(s, rules, walk, pos, held);
        lemma_earned_joined::<R>(s.pending, finalize_all_spec::<R>(s).1, rules, walk);
    }
}

/// An engine whose rules are in order, and whose pending achievements are
/// earned, hands out only what is earned until its run is over.
proof fn lemma_drained_earned<R: Rule>(
    s: EngineView<R::V>,
    rules: Seq<R::V>,
    walk: Seq<WalkItem>,
    pos: int,
    held: spec_fn(R::V) -> Set<CommitId>,
)
    requires
        grants_honestly::<R>(held),
        rules_in_order::<R>(s.rules, rules, walk, pos, held),
        all_enabled::<R>(rules, s.suppressed),
        all_earned::<R>(s.pending, rules, walk),
        0 <= pos <= walk.len(),
    ensures
        all_earned::<R>(drained::<R>(s, walk, pos).1, rules, walk),
    decreases
            walk.len() - pos,
            (if s.has_finalized {
                0int
            } else {
                1int
            }),
            s.pending.len(),
{
    let stepped = next_spec::<R>(s);
    match stepped.1 {
        Step::Granted(a) => {
            assert(is_earned::<R>(s.pending[0], rules, walk));
            assert forall|k: int| 0 <= k < stepped.0.pending.len() implies is_earned::<R>(
                #[trigger] stepped.0.pending[k],
                rules,
                walk,
            ) by {
                assert(stepped.0.pending[k] == s.pending[k + 1]);
            }
            lemma_drained_earned::<R>(stepped.0, rules, walk, pos, held);
            let rest = drained::<R>(stepped.0, walk, pos);
            assert(all_earned::<R>(seq![a], rules, walk));
            lemma_earned_joined::<R>(seq![a], rest.1, rules, walk);
        },
        Step::NeedsCommit => {
            if 0 <= pos < walk.len() {
                lemma_commit_in_order::<R>(s, rules, walk, pos, held);
                lemma_drained_earned::<R>(
                    commit_fed::<R>(s, walk[pos]),
                    rules,
                    walk,
                    pos + 1,
                    held,
                );
            } else {
                lemma_walk_end_in_order::<R>(s, rules, walk, pos, held);
                lemma_drained_earned::<R>(walk_ended::<R>(s), rules, walk, pos, held);
            }
        },
        Step::Finished(_) => {},
    }
}

/// Whether an engine is in order when the walk has come to `pos`: each of
/// its rules is, the ids that it has suppressed are among those that the
/// rules had enabled when the run began, and what is pending is earned.
pub open spec fn engine_in_order<R: Rule>(
    s: EngineView<R::V>,
    rules: Seq<R::V>,
    walk: Seq<WalkItem>,
    pos: int,
    held: spec_fn(R::V) -> Set<CommitId>,
) -> bool {
    &&& rules_in_order::<R>(s.rules, rules, walk, pos, held)
    &&& all_enabled::<R>(rules, s.suppressed)
    &&& all_earned::<R>(s.pending, rules, walk)
}

/// An engine is in order when it is set up over rules that hold no commit.
pub proof fn lemma_start_in_order<R: Rule>(
    rules: Seq<R::V>,
    cache: EntryCacheView,
    walk: Seq<WalkItem>,
    held: spec_fn(R::V) -> Set<CommitId>,
)
    requires
        grants_honestly::<R>(held),
        forall|i: int| 0 <= i < rules.len() ==> #[trigger] held(rules[i]) == Set::<
            CommitId,
        >::empty(),
    ensures
        engine_in_order::<R>(initial_state::<R>(rules, cache), rules, walk, 0, held),
{
    let s = initial_state::<R>(rules, cache);
    assert forall|i: int| 0 <= i < s.rules.len() implies rule_in_order::<R>(
        #[trigger] s.rules[i],
        rules,
        walk,
        0,
        held,
    ) by {
        R::lemma_descriptors_stay(rules[i], arbitrary(), arbitrary(), cache);
        assert(held(s.rules[i]) == held(rules[i]));
        let ds = R::descriptors(s.rules[i]);
        lemma_enabled_ids(ds);
        lemma_enabled_rule_ids::<R>(rules);
        assert forall|j: int| 0 <= j < ds.len() implies owns::<R>(
            rules,
            (#[trigger] ds[j]).name,
            ds[j].id,
        ) && (ds[j].enabled ==> enabled_rule_ids::<R>(rules).contains(ds[j].id)) by {
            assert(R::descriptors(rules[i])[j] == ds[j]);
            if ds[j].enabled {
                assert(enabled_ids(R::descriptors(rules[i])).contains(ds[j].id));
            }
        }
    }
}

/// A step of an engine in order leaves it in order, and the achievement
/// that the step hands out, if it hands one out, is earned.
pub proof fn lemma_step_in_order_grants_earned<R: Rule>(
    s: EngineView<R::V>,
    rules: Seq<R::V>,
    walk: Seq<WalkItem>,
    pos: int,
    held: spec_fn(R::V) -> Set<CommitId>,
)
    requires
        engine_in_order::<R>(s, rules, walk, pos, held),
    ensures
        engine_in_order::<R>(next_spec::<R>(s).0, rules, walk, pos, held),
        next_spec::<R>(s).1 matches Step::Granted(a) ==> is_earned::<R>(a, rules, walk),
{
    let stepped = next_spec::<R>(s);
    if s.pending.len() > 0 {
        assert(is_earned::<R>(s.pending[0], rules, walk));
        assert forall|k: int| 0 <= k < stepped.0.pending.len() implies is_earned::<R>(
            #[trigger] stepped.0.pending[k],
            rules,
            walk,
        ) by {
            assert(stepped.0.pending[k] == s.pending[k + 1]);
        }
    }
}

/// The next commit of the walk leaves an engine in order in order.
pub proof fn lemma_commit_leaves_in_order<R: Rule>(
    s: EngineView<R::V>,
    rules: Seq<R::V>,
    walk: Seq<WalkItem>,
    pos: int,
    held: spec_fn(R::V) -> Set<CommitId>,
)
    requires
        grants_honestly::<R>(held),
        engine_in_order::<R>(s, rules, walk, pos, held),
        0 <= pos < walk.len(),
    ensures
        engine_in_order::<R>(commit_fed::<R>(s, walk[pos]), rules, walk, pos + 1, held),
{
    lemma_commit_in_order::<R>(s, rules, walk, pos, held);
}

/// The end of the walk leaves an engine in order in order.
pub proof fn lemma_walk_end_leaves_in_order<R: Rule>(
    s: EngineView<R::V>,
    rules: Seq<R::V>,
    walk: Seq<WalkItem>,
    pos: int,
    held: spec_fn(R::V) -> Set<CommitId>,
)
    requires
        grants_honestly::<R>(held),
        engine_in_order::<R>(s, rules, walk, pos, held),
        pos <= walk.len(),
    ensures
        engine_in_order::<R>(walk_ended::<R>(s), rules, walk, pos, held),
{
    lemma_walk_end_in_order::<R>(s, rules, walk, pos, held);
}

/// Every achievement that a run hands out is earned: it goes to a commit of
/// the walk, under the name of a descriptor of the rules that the run
/// started with, whose id those rules had enabled.
///
/// This holds of rules that grant honestly: what the engine hands out is
/// what its rules granted, so the achievements are to be trusted as far as
/// the rules are. The engine for its part enables no id that was not enabled
/// when the run began. The same holds step by step: see
/// [`lemma_step_in_order_grants_earned`].
pub proof fn lemma_achievements_are_earned<R: Rule>(
    rules: Seq<R::V>,
    cache: EntryCacheView,
    walk: Seq<WalkItem>,
    held: spec_fn(R::V) -> Set<CommitId>,
)
    requires
        grants_honestly::<R>(held),
        forall|i: int| 0 <= i < rules.len() ==> #[trigger] held(rules[i]) == Set::<
            CommitId,
        >::empty(),
    ensures
        all_earned::<R>(run_spec::<R>(rules, cache, walk).1, rules, walk),
{
    lemma_start_in_order::<R>(rules, cache, walk, held);
    lemma_drained_earned::<R>(initial_state::<R>(rules, cache), rules, walk, 0, held);
}

} // verus!
