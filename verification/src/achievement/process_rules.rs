//! The engine: it shows each commit of a walk to a set of rules, stops where
//! the previous run began, and hands out the achievements one by one.
use vstd::prelude::*;

use crate::achievement::achievement::{
    disabled_everywhere, enabled_ids, Achievement, AchievementDescriptor, DiffAction, Rule,
};
use crate::achievement::bounded::BoundedRun;
use crate::achievement::model::{
    all_with, capped, change_dispatched, change_shown, changes_dispatched, commit_begun,
    commit_ended, commit_fed, counted, covered, diff_end_grant, diff_ended, diff_spec,
    diff_started, drained, early_exit_spec, enabled_rule_ids, finalize_all_spec, fini_all,
    grants_of, initial_state, interests, leaving_ids, models, next_spec, none_interested,
    prefinalize, process_commit_spec, retained, run_spec, stamped, summary_of, walk_ended,
    wants_changes, with_all, EngineView, RunSummary, Step,
};
use crate::cache::EntryCache;
use crate::config::Config;
use crate::git::{Commit, CommitId, TreeChange, WalkItem};
use crate::rules::{builtin_rules, rules_of, BuiltinRule};

verus! {

/// An engine that grants achievements as it is stepped.
pub struct Achievements<R: Rule> {
    pub rules: Vec<R>,
    /// One flag for each rule, at the same index.
    pub rule_diff_interest: Vec<bool>,
    pub accumulated: Vec<Achievement>,
    /// How many of `accumulated` were handed out.
    pub handed_out: usize,
    pub has_finalized: bool,
    pub entry_cache: EntryCache,
    pub first_commit: Option<CommitId>,
    pub suppressed_rules: Vec<usize>,
    /// The ids of the rules that were finalized early and left.
    pub departed_ids: Vec<usize>,
    pub summary_due: bool,
    /// Whether a commit was begun with [`Achievements::begin_commit`] and
    /// not ended yet.
    pub in_commit: bool,
    pub num_commits_processed: u64,
    pub num_achievements_generated: u64,
}

impl<R: Rule> View for Achievements<R> {
    type V = EngineView<R::V>;

    open spec fn view(&self) -> EngineView<R::V> {
        EngineView {
            rules: models(self.rules@),
            interest: self.rule_diff_interest@,
            pending: self.accumulated@.skip(self.handed_out as int),
            has_finalized: self.has_finalized,
            cache: self.entry_cache@,
            first_commit: self.first_commit,
            suppressed: self.suppressed_rules@,
            departed: self.departed_ids@,
            summary_due: self.summary_due,
            in_commit: self.in_commit,
            num_commits_processed: self.num_commits_processed,
            num_achievements_generated: self.num_achievements_generated,
        }
    }
}

/// An engine over `rules` that starts from what `entry_cache` holds.
///
/// The engine is stepped with [`Achievements::next`]; nothing is processed
/// before.
pub fn process_rules<R: Rule>(entry_cache: EntryCache, rules: Vec<R>) -> (engine: Achievements<R>)
    ensures
        engine.wf(),
        engine@ == initial_state::<R>(models(rules@), entry_cache@),
{
    let mut rules = rules;
    let ghost before = models(rules@);
    let mut interest: Vec<bool> = Vec::new();
    let mut i: usize = 0;
    while i < rules.len()
        invariant
            i <= rules@.len(),
            rules@.len() == before.len(),
            interest@.len() == i,
            forall|j: int|
                0 <= j < i ==> (#[trigger] rules@[j])@ == R::init_cache_spec(
                    before[j],
                    entry_cache@,
                ),
            forall|j: int| 0 <= j < i ==> interest@[j] == R::interested(#[trigger] rules@[j]@),
            forall|j: int| i <= j < rules@.len() ==> (#[trigger] rules@[j])@ == before[j],
        decreases rules@.len() - i,
    {
        rules[i].init_cache(&entry_cache);
        let wants = rules[i].is_interested_in_diffs();
        interest.push(wants);
        i += 1;
    }
    let engine = Achievements {
        rules,
        rule_diff_interest: interest,
        accumulated: Vec::new(),
        handed_out: 0,
        has_finalized: false,
        entry_cache,
        first_commit: None,
        suppressed_rules: Vec::new(),
        departed_ids: Vec::new(),
        summary_due: true,
        in_commit: false,
        num_commits_processed: 0,
        num_achievements_generated: 0,
    };
    assert(engine@ =~= initial_state::<R>(before, entry_cache@));
    engine
}

/// Whether `ids` holds `id`.
fn contains_id(ids: &Vec<usize>, id: usize) -> (r: bool)
    ensures
        r == ids@.contains(id),
{
    let mut i: usize = 0;
    while i < ids.len()
        invariant
            i <= ids@.len(),
            forall|j: int| 0 <= j < i ==> ids@[j] != id,
        decreases ids@.len() - i,
    {
        if ids[i] == id {
            return true;
        }
        i += 1;
    }
    false
}

/// Whether none of the descriptors is enabled.
fn all_disabled(ds: &[AchievementDescriptor]) -> (r: bool)
    ensures
        r == disabled_everywhere(ds@),
{
    let mut i: usize = 0;
    while i < ds.len()
        invariant
            i <= ds@.len(),
            forall|j: int| 0 <= j < i ==> !(#[trigger] ds@[j]).enabled,
        decreases ds@.len() - i,
    {
        if ds[i].enabled {
            return false;
        }
        i += 1;
    }
    true
}

/// Appends to `ids` the ids of the descriptors that are enabled.
fn push_enabled_ids(ids: &mut Vec<usize>, ds: &[AchievementDescriptor])
    ensures
        final(ids)@ == old(ids)@ + enabled_ids(ds@),
{
    let ghost base = ids@;
    let mut j: usize = 0;
    assert(ids@ =~= base + enabled_ids(ds@.take(0)));
    while j < ds.len()
        invariant
            j <= ds@.len(),
            ids@ == base + enabled_ids(ds@.take(j as int)),
        decreases ds@.len() - j,
    {
        assert(ds@.take(j + 1).drop_last() =~= ds@.take(j as int));
        if ds[j].enabled {
            ids.push(ds[j].id);
        }
        assert(ids@ =~= base + enabled_ids(ds@.take(j + 1)));
        j += 1;
    }
    assert(ds@.take(ds@.len() as int) =~= ds@);
}

/// Enables or disables, on one rule, the descriptors of each of `ids`.
fn set_all<R: Rule>(rule: &mut R, ids: &Vec<usize>, enabled: bool)
    ensures
        final(rule)@ == with_all::<R>(old(rule)@, ids@, enabled),
{
    let mut k: usize = 0;
    while k < ids.len()
        invariant
            k <= ids@.len(),
            rule@ == with_all::<R>(old(rule)@, ids@.take(k as int), enabled),
        decreases ids@.len() - k,
    {
        assert(ids@.take(k + 1).drop_last() =~= ids@.take(k as int));
        if enabled {
            rule.enable_by_id(ids[k]);
        } else {
            rule.disable_by_id(ids[k]);
        }
        k += 1;
    }
    assert(ids@.take(ids@.len() as int) =~= ids@);
}

/// Those of `previous` that are among `enabled`.
fn covered_ids(previous: &Vec<usize>, enabled: &Vec<usize>) -> (hit: Vec<usize>)
    ensures
        hit@ == covered(previous@, enabled@),
{
    let mut hit: Vec<usize> = Vec::new();
    let mut k: usize = 0;
    while k < previous.len()
        invariant
            k <= previous@.len(),
            hit@ == covered(previous@.take(k as int), enabled@),
        decreases previous@.len() - k,
    {
        assert(previous@.take(k + 1).drop_last() =~= previous@.take(k as int));
        if contains_id(enabled, previous[k]) {
            hit.push(previous[k]);
        }
        k += 1;
    }
    assert(previous@.take(previous@.len() as int) =~= previous@);
    hit
}

/// Enables or disables, on every rule, the descriptors of each of `ids`.
fn set_all_rules<R: Rule>(rules: &mut Vec<R>, ids: &Vec<usize>, enabled: bool)
    ensures
        final(rules)@.len() == old(rules)@.len(),
        models(final(rules)@) == all_with::<R>(models(old(rules)@), ids@, enabled),
{
    let ghost before = models(rules@);
    let mut i: usize = 0;
    while i < rules.len()
        invariant
            i <= rules@.len(),
            rules@.len() == before.len(),
            forall|j: int|
                0 <= j < i ==> (#[trigger] rules@[j])@ == with_all::<R>(before[j], ids@, enabled),
            forall|j: int| i <= j < rules@.len() ==> (#[trigger] rules@[j])@ == before[j],
        decreases rules@.len() - i,
    {
        set_all(&mut rules[i], ids, enabled);
        i += 1;
    }
    assert(models(rules@) =~= all_with::<R>(before, ids@, enabled));
}

/// Finalizes each rule that has no enabled descriptor, with the suppressed
/// ids enabled for the call. Returns what these rules granted, and the ids
/// that they had enabled for the call.
fn prefinalize_rules<R: Rule>(rules: &mut Vec<R>, suppressed: &Vec<usize>) -> (out: (
    Vec<Achievement>,
    Vec<usize>,
))
    ensures
        final(rules)@.len() == old(rules)@.len(),
        models(final(rules)@) == Seq::new(
            old(rules)@.len(),
            |i: int| prefinalize::<R>(models(old(rules)@)[i], suppressed@).0,
        ),
        out.0@ == grants_of(
            models(old(rules)@),
            |m: R::V| prefinalize::<R>(m, suppressed@).1,
            old(rules)@.len() as int,
        ),
        out.1@ == leaving_ids::<R>(models(old(rules)@), suppressed@),
{
    let ghost before = models(rules@);
    let ghost grant = |m: R::V| prefinalize::<R>(m, suppressed@).1;
    let mut out: Vec<Achievement> = Vec::new();
    let mut ids: Vec<usize> = Vec::new();
    let mut i: usize = 0;
    while i < rules.len()
        invariant
            i <= rules@.len(),
            rules@.len() == before.len(),
            grant == (|m: R::V| prefinalize::<R>(m, suppressed@).1),
            ids@ == leaving_ids::<R>(before.take(i as int), suppressed@),
            forall|j: int|
                0 <= j < i ==> (#[trigger] rules@[j])@ == prefinalize::<R>(
                    before[j],
                    suppressed@,
                ).0,
            forall|j: int| i <= j < rules@.len() ==> (#[trigger] rules@[j])@ == before[j],
            out@ == grants_of(before, grant, i as int),
        decreases rules@.len() - i,
    {
        assert(before.take(i + 1).drop_last() =~= before.take(i as int));
        assert(before.take(i + 1).last() == before[i as int]);
        if all_disabled(rules[i].get_descriptors()) {
            set_all(&mut rules[i], suppressed, true);
            push_enabled_ids(&mut ids, rules[i].get_descriptors());
            let mut new = rules[i].finalize();
            out.append(&mut new);
            set_all(&mut rules[i], suppressed, false);
        } else {
            assert(out@ + Seq::<Achievement>::empty() =~= out@);
        }
        i += 1;
    }
    assert(models(rules@) =~= Seq::new(
        before.len(),
        |i: int| prefinalize::<R>(before[i], suppressed@).0,
    ));
    assert(before.take(before.len() as int) =~= before);
    (out, ids)
}

/// Removes the rules that have no enabled descriptor.
pub fn retain_active<R: Rule>(rules: &mut Vec<R>)
    ensures
        models(final(rules)@) == retained::<R>(models(old(rules)@)),
{
    let ghost before = models(rules@);
    let mut rest: Vec<R> = Vec::new();
    core::mem::swap(rules, &mut rest);
    let ghost total = rest@.len();
    let ghost mut i: int = 0;
    while rest.len() > 0
        invariant
            0 <= i,
            i + rest@.len() == total,
            total == before.len(),
            models(rest@) == before.skip(i),
            models(rules@) == retained::<R>(before.take(i)),
        decreases rest@.len(),
    {
        let ghost left = rest@;
        assert(before.take(i + 1).drop_last() =~= before.take(i));
        assert(models(left)[0] == before[i]);
        let rule = rest.remove(0);
        if !all_disabled(rule.get_descriptors()) {
            rules.push(rule);
            assert(models(rules@) =~= retained::<R>(before.take(i)).push(before[i]));
        }
        assert forall|j: int| 0 <= j < rest@.len() implies models(rest@)[j] == before.skip(
            i + 1,
        )[j] by {
            assert(rest@[j] == left[j + 1]);
            assert(models(left)[j + 1] == before.skip(i)[j + 1]);
        }
        assert(models(rest@) =~= before.skip(i + 1));
        proof {
            i = i + 1;
        }
    }
    assert(before.take(total as int) =~= before);
}

/// For each rule, whether it wants the changes of each commit.
fn interests_of<R: Rule>(rules: &Vec<R>) -> (interest: Vec<bool>)
    ensures
        interest@ == Seq::new(rules@.len(), |i: int| R::interested(models(rules@)[i])),
{
    let mut interest: Vec<bool> = Vec::new();
    let mut i: usize = 0;
    while i < rules.len()
        invariant
            i <= rules@.len(),
            interest@.len() == i,
            forall|j: int| 0 <= j < i ==> interest@[j] == R::interested(#[trigger] rules@[j]@),
        decreases rules@.len() - i,
    {
        interest.push(rules[i].is_interested_in_diffs());
        i += 1;
    }
    assert(interest@ =~= Seq::new(rules@.len(), |i: int| R::interested(models(rules@)[i])));
    interest
}

/// Shows `commit` to every rule. Returns what the rules granted.
fn process_all<R: Rule>(rules: &mut Vec<R>, commit: &Commit) -> (out: Vec<Achievement>)
    ensures
        final(rules)@.len() == old(rules)@.len(),
        models(final(rules)@) == Seq::new(
            old(rules)@.len(),
            |i: int| R::process_spec(models(old(rules)@)[i], *commit).0,
        ),
        out@ == grants_of(
            models(old(rules)@),
            |m: R::V| R::process_spec(m, *commit).1,
            old(rules)@.len() as int,
        ),
{
    let ghost before = models(rules@);
    let ghost grant = |m: R::V| R::process_spec(m, *commit).1;
    let mut out: Vec<Achievement> = Vec::new();
    let mut i: usize = 0;
    while i < rules.len()
        invariant
            i <= rules@.len(),
            rules@.len() == before.len(),
            grant == (|m: R::V| R::process_spec(m, *commit).1),
            forall|j: int|
                0 <= j < i ==> (#[trigger] rules@[j])@ == R::process_spec(before[j], *commit).0,
            forall|j: int| i <= j < rules@.len() ==> (#[trigger] rules@[j])@ == before[j],
            out@ == grants_of(before, grant, i as int),
        decreases rules@.len() - i,
    {
        let mut new = rules[i].process(commit);
        out.append(&mut new);
        i += 1;
    }
    assert(models(rules@) =~= Seq::new(
        before.len(),
        |i: int| R::process_spec(before[i], *commit).0,
    ));
    out
}

/// Asks every rule whether it wants changes, notes the answers, and tells
/// those that do that the diff of `commit` begins.
fn start_diffs<R: Rule>(rules: &mut Vec<R>, interest: &mut Vec<bool>, commit: &Commit)
    requires
        old(interest)@.len() == old(rules)@.len(),
    ensures
        final(rules)@.len() == old(rules)@.len(),
        final(interest)@.len() == old(interest)@.len(),
        models(final(rules)@) == diff_started::<R>(models(old(rules)@), *commit),
        final(interest)@ == interests::<R>(models(old(rules)@)),
{
    let ghost before = models(rules@);
    let mut i: usize = 0;
    while i < rules.len()
        invariant
            i <= rules@.len(),
            rules@.len() == before.len(),
            interest@.len() == before.len(),
            forall|j: int|
                0 <= j < i ==> (#[trigger] rules@[j])@ == diff_started::<R>(before, *commit)[j],
            forall|j: int| 0 <= j < i ==> interest@[j] == R::interested(#[trigger] before[j]),
            forall|j: int| i <= j < rules@.len() ==> (#[trigger] rules@[j])@ == before[j],
        decreases rules@.len() - i,
    {
        let wants = rules[i].is_interested_in_diffs();
        interest[i] = wants;
        if wants {
            rules[i].on_diff_start(commit);
        }
        i += 1;
    }
    assert(models(rules@) =~= diff_started::<R>(before, *commit));
    assert(interest@ =~= interests::<R>(before));
}

/// Shows one change to each rule whose interest flag is set, and clears the
/// flag of each that cancels or fails. Returns [`DiffAction::Cancel`] when
/// no flag is left set.
fn dispatch_change<R: Rule>(
    rules: &mut Vec<R>,
    interest: &mut Vec<bool>,
    commit: &Commit,
    change: &TreeChange,
) -> (action: DiffAction)
    requires
        old(interest)@.len() == old(rules)@.len(),
    ensures
        final(rules)@.len() == old(rules)@.len(),
        final(interest)@.len() == old(interest)@.len(),
        models(final(rules)@) == change_dispatched::<R>(
            models(old(rules)@),
            old(interest)@,
            *commit,
            *change,
        ).0,
        final(interest)@ == change_dispatched::<R>(
            models(old(rules)@),
            old(interest)@,
            *commit,
            *change,
        ).1,
        action == if none_interested(final(interest)@) {
            DiffAction::Cancel
        } else {
            DiffAction::Continue
        },
{
    let ghost before = models(rules@);
    let ghost flags = interest@;
    let ghost after = change_dispatched::<R>(before, flags, *commit, *change);
    // The diff as a whole is cancelled only when every rule has cancelled. A rule that
    // has cancelled is shown no more changes.
    let mut all_disinterested = true;
    let mut i: usize = 0;
    while i < rules.len()
        invariant
            i <= rules@.len(),
            rules@.len() == before.len(),
            interest@.len() == before.len(),
            flags.len() == before.len(),
            after == change_dispatched::<R>(before, flags, *commit, *change),
            forall|j: int| 0 <= j < i ==> (#[trigger] rules@[j])@ == after.0[j],
            forall|j: int| 0 <= j < i ==> interest@[j] == after.1[j],
            forall|j: int| i <= j < rules@.len() ==> (#[trigger] rules@[j])@ == before[j],
            forall|j: int| i <= j < rules@.len() ==> interest@[j] == flags[j],
            all_disinterested == (forall|j: int| 0 <= j < i ==> !after.1[j]),
        decreases rules@.len() - i,
    {
        if interest[i] {
            let goes_on = match rules[i].on_diff_change(commit, change) {
                Ok(DiffAction::Continue) => true,
                _ => false,
            };
            if goes_on {
                all_disinterested = false;
                assert(after.1[i as int]);
            } else {
                interest[i] = false;
            }
        }
        i += 1;
    }
    assert(models(rules@) =~= after.0);
    assert(interest@ =~= after.1);
    assert(all_disinterested == none_interested(interest@));
    if all_disinterested {
        DiffAction::Cancel
    } else {
        DiffAction::Continue
    }
}

/// Tells every rule that wants changes that the diff of `commit` ended.
/// Returns what these rules granted.
fn end_diffs<R: Rule>(rules: &mut Vec<R>, commit: &Commit) -> (out: Vec<Achievement>)
    ensures
        final(rules)@.len() == old(rules)@.len(),
        models(final(rules)@) == diff_ended::<R>(models(old(rules)@), *commit),
        out@ == grants_of(
            models(old(rules)@),
            |m: R::V| diff_end_grant::<R>(m, *commit),
            old(rules)@.len() as int,
        ),
{
    let ghost before = models(rules@);
    let ghost grant = |m: R::V| diff_end_grant::<R>(m, *commit);
    let mut out: Vec<Achievement> = Vec::new();
    let mut i: usize = 0;
    while i < rules.len()
        invariant
            i <= rules@.len(),
            rules@.len() == before.len(),
            grant == (|m: R::V| diff_end_grant::<R>(m, *commit)),
            forall|j: int|
                0 <= j < i ==> (#[trigger] rules@[j])@ == diff_ended::<R>(before, *commit)[j],
            forall|j: int| i <= j < rules@.len() ==> (#[trigger] rules@[j])@ == before[j],
            out@ == grants_of(before, grant, i as int),
        decreases rules@.len() - i,
    {
        if rules[i].is_interested_in_diffs() {
            let mut new = rules[i].on_diff_end(commit);
            out.append(&mut new);
        } else {
            assert(out@ + Seq::<Achievement>::empty() =~= out@);
        }
        i += 1;
    }
    assert(models(rules@) =~= diff_ended::<R>(before, *commit));
    out
}

/// Dispatches the changes from the first on, until none is left or every
/// rule has cancelled.
fn dispatch_changes<R: Rule>(
    rules: &mut Vec<R>,
    interest: &mut Vec<bool>,
    commit: &Commit,
    changes: &Vec<TreeChange>,
)
    requires
        old(interest)@.len() == old(rules)@.len(),
    ensures
        final(rules)@.len() == old(rules)@.len(),
        final(interest)@.len() == old(interest)@.len(),
        (models(final(rules)@), final(interest)@) == changes_dispatched::<R>(
            models(old(rules)@),
            old(interest)@,
            *commit,
            changes@,
            0,
        ),
{
    let ghost goal = changes_dispatched::<R>(models(rules@), interest@, *commit, changes@, 0);
    let mut k: usize = 0;
    while k < changes.len()
        invariant
            k <= changes@.len(),
            interest@.len() == rules@.len(),
            rules@.len() == old(rules)@.len(),
            old(interest)@.len() == old(rules)@.len(),
            goal == changes_dispatched::<R>(
                models(old(rules)@),
                old(interest)@,
                *commit,
                changes@,
                0,
            ),
            goal == changes_dispatched::<R>(models(rules@), interest@, *commit, changes@, k as int),
        decreases changes@.len() - k,
    {
        let ghost shown = change_dispatched::<R>(
            models(rules@),
            interest@,
            *commit,
            changes@[k as int],
        );
        assert(goal == if none_interested(shown.1) {
            shown
        } else {
            changes_dispatched::<R>(shown.0, shown.1, *commit, changes@, k + 1)
        });
        let action = dispatch_change(rules, interest, commit, &changes[k]);
        k += 1;
        match action {
            DiffAction::Cancel => {
                return ;
            },
            DiffAction::Continue => {},
        }
    }
}

/// Whether an interest flag is set.
fn any_interest(interest: &Vec<bool>) -> (r: bool)
    ensures
        r == !none_interested(interest@),
{
    let mut i: usize = 0;
    while i < interest.len()
        invariant
            i <= interest@.len(),
            forall|j: int| 0 <= j < i ==> !interest@[j],
        decreases interest@.len() - i,
    {
        if interest[i] {
            return true;
        }
        i += 1;
    }
    false
}

/// Lets every rule leave in the record what the next run needs of it.
fn fini_rules<R: Rule>(rules: &Vec<R>, cache: &mut EntryCache)
    ensures
        final(cache)@ == fini_all::<R>(models(rules@), old(cache)@, rules@.len() as int),
{
    let mut i: usize = 0;
    while i < rules.len()
        invariant
            i <= rules@.len(),
            cache@ == fini_all::<R>(models(rules@), old(cache)@, i as int),
        decreases rules@.len() - i,
    {
        rules[i].fini_cache(cache);
        i += 1;
    }
}

impl<R: Rule> Achievements<R> {
    /// Whether the fields fit together: one interest flag for each rule, and
    /// no more achievements handed out than were granted.
    pub open spec fn wf(&self) -> bool {
        &&& self.rule_diff_interest@.len() == self.rules@.len()
        &&& self.handed_out <= self.accumulated@.len()
    }

    /// Whether the fields fit together.
    pub fn is_well_formed(&self) -> (r: bool)
        ensures
            r == self.wf(),
    {
        self.rule_diff_interest.len() == self.rules.len() && self.handed_out
            <= self.accumulated.len()
    }

    /// The ids of the descriptors that are enabled now, rule by rule.
    pub fn get_enabled_rule_ids(&self) -> (ids: Vec<usize>)
        ensures
            ids@ == enabled_rule_ids::<R>(self@.rules),
    {
        let mut ids: Vec<usize> = Vec::new();
        let mut i: usize = 0;
        while i < self.rules.len()
            invariant
                i <= self.rules@.len(),
                ids@ == enabled_rule_ids::<R>(self@.rules.take(i as int)),
            decreases self.rules@.len() - i,
        {
            push_enabled_ids(&mut ids, self.rules[i].get_descriptors());
            assert(self@.rules.take(i + 1).drop_last() =~= self@.rules.take(i as int));
            i += 1;
        }
        assert(self@.rules.take(self.rules@.len() as int) =~= self@.rules);
        ids
    }

    /// Enables the suppressed ids again and finalizes every rule. Returns
    /// what the rules granted, in catalog order.
    pub fn get_finalized_achievements(&mut self) -> (out: Vec<Achievement>)
        requires
            old(self).wf(),
        ensures
            final(self).wf(),
            final(self)@ == finalize_all_spec::<R>(old(self)@).0,
            out@ == finalize_all_spec::<R>(old(self)@).1,
    {
        let ghost before = self@;
        let ghost restored = all_with::<R>(before.rules, before.suppressed, true);
        let ghost grant = |m: R::V| R::finalize_spec(m).1;
        let mut out: Vec<Achievement> = Vec::new();
        let mut i: usize = 0;
        while i < self.rules.len()
            invariant
                i <= self.rules@.len(),
                self.rules@.len() == before.rules.len(),
                restored == all_with::<R>(before.rules, before.suppressed, true),
                grant == (|m: R::V| R::finalize_spec(m).1),
                self.suppressed_rules@ == before.suppressed,
                self.departed_ids == old(self).departed_ids,
                self.rule_diff_interest == old(self).rule_diff_interest,
                self.accumulated == old(self).accumulated,
                self.handed_out == old(self).handed_out,
                self.has_finalized == old(self).has_finalized,
                self.entry_cache == old(self).entry_cache,
                self.first_commit == old(self).first_commit,
                self.summary_due == old(self).summary_due,
                self.in_commit == old(self).in_commit,
                self.num_commits_processed == old(self).num_commits_processed,
                self.num_achievements_generated == old(self).num_achievements_generated,
                forall|j: int|
                    0 <= j < i ==> (#[trigger] self.rules@[j])@ == R::finalize_spec(restored[j]).0,
                forall|j: int|
                    i <= j < self.rules@.len() ==> (#[trigger] self.rules@[j])@ == before.rules[j],
                out@ == grants_of(restored, grant, i as int),
            decreases self.rules@.len() - i,
        {
            set_all(&mut self.rules[i], &self.suppressed_rules, true);
            let mut new = self.rules[i].finalize();
            out.append(&mut new);
            i += 1;
        }
        assert(self@ =~= finalize_all_spec::<R>(before).0);
        out
    }

    /// Decides, before any rule sees the commit `oid`, whether the walk has
    /// reached the commit at which the previous run began, and what follows
    /// from it. Returns what rules granted on being finalized, and whether
    /// the commit is to be processed.
    pub fn try_handle_early_exit(&mut self, oid: CommitId) -> (out: (Vec<Achievement>, bool))
        requires
            old(self).wf(),
        ensures
            final(self).wf(),
            final(self)@ == early_exit_spec::<R>(old(self)@, oid).0,
            out.0@ == early_exit_spec::<R>(old(self)@, oid).1,
            out.1 == early_exit_spec::<R>(old(self)@, oid).2,
    {
        let ghost before = self@;
        if self.first_commit.is_none() {
            self.first_commit = Some(oid);
        }
        let reached = match self.entry_cache.last_processed_commit {
            Some(last) => oid == last,
            None => false,
        };
        if !reached {
            assert(self@ =~= early_exit_spec::<R>(before, oid).0);
            return (Vec::new(), true);
        }
        // The previous run saw this commit. What it covered is suppressed, so that only
        // descriptors that are new since then go on to older commits.
        let enabled = self.get_enabled_rule_ids();
        let mut hit = covered_ids(&self.entry_cache.last_processed_rules, &enabled);
        set_all_rules(&mut self.rules, &hit, false);
        self.suppressed_rules.append(&mut hit);

        let continue_processing = self.get_enabled_rule_ids().len() > 0;
        if !continue_processing {
            self.has_finalized = true;
            let achievements = self.get_finalized_achievements();
            return (achievements, false);
        }
        // Rules without an enabled descriptor have nothing to add on the commits that are
        // left: they are finalized now and leave.

        let (achievements, mut left) = prefinalize_rules(&mut self.rules, &self.suppressed_rules);
        self.departed_ids.append(&mut left);
        retain_active(&mut self.rules);
        self.rule_diff_interest = interests_of(&self.rules);
        assert(self@ =~= early_exit_spec::<R>(before, oid).0);
        (achievements, true)
    }

    /// Begins the diff of `commit`: notes which rules want changes, and
    /// tells those.
    pub fn on_diff_start(&mut self, commit: &Commit)
        requires
            old(self).wf(),
        ensures
            final(self).wf(),
            final(self)@ == (EngineView {
                rules: diff_started::<R>(old(self)@.rules, *commit),
                interest: interests::<R>(old(self)@.rules),
                ..old(self)@
            }),
    {
        start_diffs(&mut self.rules, &mut self.rule_diff_interest, commit);
    }

    /// Shows one change of the commit that was begun to the rules that still
    /// take changes. Returns [`DiffAction::Cancel`] when no rule takes any
    /// more: the changes that are left need not be shown.
    ///
    /// No change of a merge is shown to any rule, and none outside a commit.
    pub fn on_diff_change(&mut self, commit: &Commit, change: &TreeChange) -> (action: DiffAction)
        requires
            old(self).wf(),
        ensures
            final(self).wf(),
            final(self)@ == change_shown::<R>(old(self)@, *commit, *change).0,
            action == change_shown::<R>(old(self)@, *commit, *change).1,
    {
        if !self.in_commit || commit.is_merge() {
            return DiffAction::Cancel;
        }
        dispatch_change(&mut self.rules, &mut self.rule_diff_interest, commit, change)
    }

    /// Begins the next commit of the walk: decides whether the walk has
    /// reached the commit at which the previous run began, lets every rule
    /// process the commit, and begins its diff. What is granted becomes
    /// pending. Returns whether the changes of the commit are wanted.
    ///
    /// Where they are, show them with [`Self::on_diff_change`] until none is
    /// left or it returns [`DiffAction::Cancel`]. Then, and also where no
    /// changes are wanted, call [`Self::end_commit`].
    pub fn begin_commit(&mut self, commit: &Commit) -> (wanted: bool)
        requires
            old(self).wf(),
        ensures
            final(self).wf(),
            final(self)@ == commit_begun::<R>(old(self)@, *commit),
            wanted == wants_changes(final(self)@, *commit),
    {
        if self.has_finalized || self.in_commit {
            return self.in_commit && !commit.is_merge() && any_interest(&self.rule_diff_interest);
        }
        let (mut achievements, continue_processing) = self.try_handle_early_exit(commit.id);
        if !continue_processing {
            self.accumulate(achievements);
            return false;
        }
        if self.num_commits_processed < u64::MAX {
            self.num_commits_processed += 1;
        }
        let mut new = process_all(&mut self.rules, commit);
        achievements.append(&mut new);
        self.accumulate(achievements);
        self.on_diff_start(commit);
        self.in_commit = true;
        !commit.is_merge() && any_interest(&self.rule_diff_interest)
    }

    /// Ends the commit that was begun: ends its diff, and makes pending what
    /// the rules grant then. Does nothing outside a commit.
    pub fn end_commit(&mut self, commit: &Commit)
        requires
            old(self).wf(),
        ensures
            final(self).wf(),
            final(self)@ == commit_ended::<R>(old(self)@, *commit),
    {
        if !self.in_commit {
            return ;
        }
        let achievements = self.on_diff_end(commit);
        self.accumulate(achievements);
        self.in_commit = false;
    }

    /// Ends the diff of `commit`. Returns what the rules that want changes
    /// granted.
    pub fn on_diff_end(&mut self, commit: &Commit) -> (out: Vec<Achievement>)
        requires
            old(self).wf(),
        ensures
            final(self).wf(),
            final(self)@ == (EngineView {
                rules: diff_ended::<R>(old(self)@.rules, *commit),
                ..old(self)@
            }),
            out@ == grants_of(
                old(self)@.rules,
                |m: R::V| diff_end_grant::<R>(m, *commit),
                old(self)@.rules.len() as int,
            ),
    {
        end_diffs(&mut self.rules, commit)
    }

    /// Runs the diff of `commit` over `changes`, its changes against its
    /// only parent. The changes of a merge are not looked at.
    pub fn diff_commit(&mut self, commit: &Commit, changes: &Vec<TreeChange>) -> (out: Vec<
        Achievement,
    >)
        requires
            old(self).wf(),
        ensures
            final(self).wf(),
            final(self)@ == diff_spec::<R>(old(self)@, *commit, changes@).0,
            out@ == diff_spec::<R>(old(self)@, *commit, changes@).1,
    {
        self.on_diff_start(commit);
        if commit.is_merge() {
            // A merge has more than one parent to compare with: it is skipped.
            return self.on_diff_end(commit);
        }
        dispatch_changes(&mut self.rules, &mut self.rule_diff_interest, commit, changes);
        self.on_diff_end(commit)
    }

    /// Handles one commit of the walk. Returns what was granted for it.
    pub fn process_commit(&mut self, commit: &Commit, changes: &Vec<TreeChange>) -> (out: Vec<
        Achievement,
    >)
        requires
            old(self).wf(),
        ensures
            final(self).wf(),
            final(self)@ == process_commit_spec::<R>(old(self)@, *commit, changes@).0,
            out@ == process_commit_spec::<R>(old(self)@, *commit, changes@).1,
    {
        let (mut achievements, continue_processing) = self.try_handle_early_exit(commit.id);
        if !continue_processing {
            return achievements;
        }
        if self.num_commits_processed < u64::MAX {
            self.num_commits_processed += 1;
        }
        let mut new = process_all(&mut self.rules, commit);
        achievements.append(&mut new);

        let mut new = self.diff_commit(commit, changes);
        achievements.append(&mut new);
        achievements
    }

    /// Writes into the record the first commit of the walk, the ids of the
    /// rules that left early and the ids that are enabled now, and what each
    /// rule adds.
    fn stamp(&mut self)
        requires
            old(self).wf(),
        ensures
            final(self).wf(),
            final(self)@ == (EngineView { cache: stamped::<R>(old(self)@), ..old(self)@ }),
    {
        let mut ids = self.departed_ids.clone();
        let mut enabled = self.get_enabled_rule_ids();
        ids.append(&mut enabled);
        self.entry_cache.last_processed_rules = ids;
        self.entry_cache.last_processed_commit = self.first_commit;
        fini_rules(&self.rules, &mut self.entry_cache);
    }

    /// The next achievement that is pending, if there is one.
    pub fn get_next_accumulated(&mut self) -> (out: Option<Achievement>)
        requires
            old(self).wf(),
        ensures
            final(self).wf(),
            old(self)@.pending.len() > 0 ==> out == Some(old(self)@.pending[0]) && final(self)@ == (
            EngineView {
                pending: old(self)@.pending.skip(1),
                num_achievements_generated: counted(old(self)@.num_achievements_generated),
                ..old(self)@
            }),
            old(self)@.pending.len() == 0 ==> out is None && final(self)@ == old(self)@,
    {
        if self.handed_out < self.accumulated.len() {
            let achievement = self.accumulated[self.handed_out];
            self.handed_out += 1;
            if self.num_achievements_generated < u64::MAX {
                self.num_achievements_generated += 1;
            }
            assert(self@.pending =~= old(self)@.pending.skip(1));
            Some(achievement)
        } else {
            None
        }
    }

    /// Makes `new` pending, behind what is pending already.
    fn accumulate(&mut self, new: Vec<Achievement>)
        requires
            old(self).wf(),
        ensures
            final(self).wf(),
            final(self)@ == (EngineView { pending: old(self)@.pending + new@, ..old(self)@ }),
    {
        let mut new = new;
        let ghost added = new@;
        if self.handed_out == self.accumulated.len() {
            self.accumulated.clear();
            self.handed_out = 0;
        }
        self.accumulated.append(&mut new);
        assert(self@.pending =~= old(self)@.pending + added);
    }

    /// Takes one step: hands out a pending achievement, or asks for the next
    /// commit, or ends the run and stamps the record.
    ///
    /// After [`Step::NeedsCommit`], call [`Self::feed_commit`] with the next
    /// commit of the walk, or [`Self::end_walk`] where there is none.
    pub fn next(&mut self) -> (step: Step)
        requires
            old(self).wf(),
        ensures
            final(self).wf(),
            final(self)@ == next_spec::<R>(old(self)@).0,
            step == next_spec::<R>(old(self)@).1,
    {
        // Achievements that were granted and not handed out yet come first.
        if let Some(achievement) = self.get_next_accumulated() {
            return Step::Granted(achievement);
        }
        if !self.has_finalized {
            return Step::NeedsCommit;
        }
        self.stamp();
        // The summary is given once, however often the engine is stepped at its end.

        let summary = if self.summary_due {
            Some(
                RunSummary {
                    num_commits_processed: self.num_commits_processed,
                    num_achievements_generated: self.num_achievements_generated,
                },
            )
        } else {
            None
        };
        self.summary_due = false;
        Step::Finished(summary)
    }

    /// Gives the engine the next commit of the walk. What is granted for it
    /// becomes pending.
    pub fn feed_commit(&mut self, item: &WalkItem)
        requires
            old(self).wf(),
        ensures
            final(self).wf(),
            final(self)@ == commit_fed::<R>(old(self)@, *item),
    {
        if self.has_finalized || self.in_commit {
            return ;
        }
        let achievements = self.process_commit(&item.commit, &item.changes);
        self.accumulate(achievements);
    }

    /// Tells the engine that the walk has ended: the rules are finalized,
    /// and what they grant becomes pending.
    pub fn end_walk(&mut self)
        requires
            old(self).wf(),
        ensures
            final(self).wf(),
            final(self)@ == walk_ended::<R>(old(self)@),
    {
        if self.has_finalized {
            return ;
        }
        let achievements = self.get_finalized_achievements();
        self.has_finalized = true;
        self.in_commit = false;
        self.accumulate(achievements);
    }

    /// Whether the cache of the diff is due to be cleared: it is after every
    /// fifty commits.
    pub fn diff_cache_is_due(&self) -> (due: bool)
        ensures
            due == (self.num_commits_processed % 50 == 0),
    {
        self.num_commits_processed % 50 == 0
    }

    /// Ends the use of the engine and returns the record. An engine that is
    /// given up before its run is over stamps the record with what it has:
    /// the first commit it saw, the ids of the rules that left early, and
    /// the ids enabled now.
    pub fn into_cache(self) -> (cache: EntryCache)
        requires
            self.wf(),
        ensures
            cache@ == if self@.summary_due {
                stamped::<R>(self@)
            } else {
                self@.cache
            },
    {
        let mut engine = self;
        if engine.summary_due {
            engine.stamp();
        }
        engine.entry_cache
    }
}

/// Runs `rules` over the commits of `walk`, newest first. Returns every
/// achievement that is granted, in the order in which the engine hands them
/// out, and the counters of the run. At most `depth` commits are looked at
/// where a depth is given. The record `cache` says where the previous run
/// began; at the end it holds what this run leaves.
pub fn run_rules<R: Rule>(
    walk: &Vec<WalkItem>,
    cache: &mut EntryCache,
    depth: Option<usize>,
    rules: Vec<R>,
) -> (out: (Vec<Achievement>, RunSummary))
    ensures
        out.0@ == run_spec::<R>(models(rules@), old(cache)@, capped(walk@, depth)).1,
        out.1 == summary_of(run_spec::<R>(models(rules@), old(cache)@, capped(walk@, depth)).0),
        final(cache)@ == run_spec::<R>(models(rules@), old(cache)@, capped(walk@, depth)).0.cache,
{
    let ghost commits = capped(walk@, depth);
    let ghost goal = run_spec::<R>(models(rules@), cache@, commits);
    let mut taken = EntryCache::new();
    core::mem::swap(cache, &mut taken);
    let mut run = BoundedRun::begin(taken, rules, depth);
    let mut out: Vec<Achievement> = Vec::new();
    let mut pos: usize = 0;
    let mut summary = RunSummary { num_commits_processed: 0, num_achievements_generated: 0 };
    loop
        invariant_except_break
            run.wf(),
            pos <= commits.len(),
            commits == capped(walk@, depth),
            depth matches Some(d) ==> pos <= d && run.commits_left == Some((d - pos) as usize),
            depth is None ==> run.commits_left is None,
            run.engine@.summary_due,
            goal.0 == drained::<R>(run.engine@, commits, pos as int).0,
            goal.1 == out@ + drained::<R>(run.engine@, commits, pos as int).1,
        ensures
            run.wf(),
            goal.0 == run.engine@,
            goal.1 == out@,
            !run.engine@.summary_due,
            summary == summary_of(run.engine@),
        decreases
                commits.len() - pos,
                (if run.engine.has_finalized {
                    0int
                } else {
                    1int
                }),
                run.engine@.pending.len(),
    {
        let ghost handed = out@;
        let ghost before = run.engine@;
        let ghost used_up = next_spec::<R>(before).1 is NeedsCommit && run.commits_left == Some(
            0usize,
        );
        proof {
            if used_up {
                // No commit is left to take: the walk ends here.
                assert(pos >= commits.len());
                assert(drained::<R>(before, commits, pos as int) == drained::<R>(
                    walk_ended::<R>(before),
                    commits,
                    pos as int,
                ));
            }
        }
        match run.next() {
            Step::Granted(achievement) => {
                out.push(achievement);
                let ghost source = if used_up {
                    walk_ended::<R>(before)
                } else {
                    before
                };
                assert(drained::<R>(source, commits, pos as int).1 == seq![achievement]
                    + drained::<R>(run.engine@, commits, pos as int).1);
                assert(out@ + drained::<R>(run.engine@, commits, pos as int).1 =~= handed + (
                seq![achievement] + drained::<R>(run.engine@, commits, pos as int).1));
            },
            Step::NeedsCommit => {
                if pos < walk.len() {
                    assert(pos < commits.len());
                    assert(commits[pos as int] == walk@[pos as int]);
                    run.feed_commit(&walk[pos]);
                    pos += 1;
                } else {
                    run.end_walk();
                }
            },
            Step::Finished(counters) => {
                let ghost source = if used_up {
                    walk_ended::<R>(before)
                } else {
                    before
                };
                assert(drained::<R>(source, commits, pos as int) == (
                    run.engine@,
                    Seq::<Achievement>::empty(),
                ));
                assert(out@ + Seq::<Achievement>::empty() =~= out@);
                if let Some(counters) = counters {
                    summary = counters;
                }
                break ;
            },
        }
    }
    *cache = run.into_cache();
    (out, summary)
}

/// Runs `rules` over the commits of `walk` and returns the achievements. See
/// [`run_rules`].
pub fn grant_with_rules<R: Rule>(
    walk: &Vec<WalkItem>,
    cache: &mut EntryCache,
    depth: Option<usize>,
    rules: Vec<R>,
) -> (out: Vec<Achievement>)
    ensures
        out@ == run_spec::<R>(models(rules@), old(cache)@, capped(walk@, depth)).1,
        final(cache)@ == run_spec::<R>(models(rules@), old(cache)@, capped(walk@, depth)).0.cache,
{
    run_rules(walk, cache, depth, rules).0
}

/// Runs the rules that the configuration lets run over the commits of
/// `walk` and returns the achievements. See [`run_rules`].
pub fn grant(
    config: Option<&Config>,
    walk: &Vec<WalkItem>,
    cache: &mut EntryCache,
    depth: Option<usize>,
) -> (out: Vec<Achievement>)
    ensures
        out@ == run_spec::<BuiltinRule>(rules_of(config), old(cache)@, capped(walk@, depth)).1,
        final(cache)@ == run_spec::<BuiltinRule>(
            rules_of(config),
            old(cache)@,
            capped(walk@, depth),
        ).0.cache,
{
    grant_with_rules(walk, cache, depth, builtin_rules(config))
}

} // verus!
