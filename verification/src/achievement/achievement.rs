//! Achievements, their descriptors, and the contract of a rule.
use vstd::prelude::*;

use crate::cache::{EntryCache, EntryCacheView};
use crate::git::{Commit, CommitId, TreeChange};
use crate::utils::text::{chars_eq, chars_of, decimal, push_all, push_decimal, string_from_chars};

verus! {

/// An achievement that a rule granted to a commit.
#[derive(Clone, Copy, Debug)]
pub struct Achievement {
    /// The name of the descriptor that it was granted under.
    pub name: &'static str,
    pub commit: CommitId,
}

/// Describes one kind of achievement that a rule can grant.
#[derive(Clone, Copy, Debug)]
pub struct AchievementDescriptor {
    /// Whether the rule that owns this descriptor grants achievements under it.
    pub enabled: bool,
    /// The numeric id, positive and unique among all descriptors.
    pub id: usize,
    /// The human id: lower-case words joined by `-`, such as
    /// `longest-subject-line`.
    pub human_id: &'static str,
    /// The name of the achievements granted under this descriptor.
    pub name: &'static str,
    /// One sentence that says what earns the achievement.
    pub description: &'static str,
}

/// The short id of a descriptor: `H` and its numeric id.
pub open spec fn short_id_of(d: AchievementDescriptor) -> Seq<char> {
    seq!['H'] + decimal(d.id as nat)
}

/// The pretty id of a descriptor: `H`, its numeric id, `-` and its human id.
pub open spec fn pretty_id_of(d: AchievementDescriptor) -> Seq<char> {
    seq!['H'] + decimal(d.id as nat) + seq!['-'] + d.human_id@
}

impl AchievementDescriptor {
    /// Whether `id` names this descriptor: by its numeric id in decimal, its
    /// short id, its human id or its pretty id.
    pub open spec fn matches(self, id: Seq<char>) -> bool {
        ||| id == decimal(self.id as nat)
        ||| id == short_id_of(self)
        ||| id == self.human_id@
        ||| id == pretty_id_of(self)
    }

    /// Determines if the given id names this descriptor.
    pub fn id_matches(&self, id: &str) -> (r: bool)
        ensures
            r == self.matches(id@),
    {
        let given = chars_of(id);
        let mut numeric: Vec<char> = Vec::new();
        push_decimal(self.id, &mut numeric);
        assert(numeric@ =~= decimal(self.id as nat));
        let mut short: Vec<char> = Vec::new();
        short.push('H');
        push_all(&mut short, &numeric);
        assert(short@ =~= short_id_of(*self));
        let human = chars_of(self.human_id);
        let mut pretty: Vec<char> = Vec::new();
        push_all(&mut pretty, &short);
        pretty.push('-');
        push_all(&mut pretty, &human);
        assert(pretty@ =~= pretty_id_of(*self));
        chars_eq(&given, &numeric) || chars_eq(&given, &short) || chars_eq(&given, &human)
            || chars_eq(&given, &pretty)
    }

    /// The pretty id, such as `H42-whats-the-question`.
    pub fn pretty_id(&self) -> (s: String)
        ensures
            s@ == pretty_id_of(*self),
    {
        let mut pretty: Vec<char> = Vec::new();
        pretty.push('H');
        push_decimal(self.id, &mut pretty);
        pretty.push('-');
        let human = chars_of(self.human_id);
        push_all(&mut pretty, &human);
        assert(pretty@ =~= pretty_id_of(*self));
        string_from_chars(&pretty)
    }
}

/// A descriptor is named by each of its own four ids.
pub proof fn lemma_own_ids_match(d: AchievementDescriptor)
    ensures
        d.matches(decimal(d.id as nat)),
        d.matches(short_id_of(d)),
        d.matches(d.human_id@),
        d.matches(pretty_id_of(d)),
{
}

/// What a rule answers to one change of a diff.
#[derive(Clone, Copy, Debug, PartialEq, Eq, Structural)]
pub enum DiffAction {
    /// Hand this rule the next change of the commit.
    Continue,
    /// Hand this rule no more changes of the commit.
    Cancel,
}

/// An error that a rule met while it looked at a change. The engine goes on
/// as if the rule had answered [`DiffAction::Cancel`].
#[derive(Clone, Debug)]
pub struct RuleError {
    pub message: String,
}

/// The descriptors `ds`, with `enabled` set on each whose id is `id`.
pub open spec fn toggled(ds: Seq<AchievementDescriptor>, id: usize, enabled: bool) -> Seq<
    AchievementDescriptor,
> {
    Seq::new(
        ds.len(),
        |i: int|
            if ds[i].id == id {
                AchievementDescriptor { enabled, ..ds[i] }
            } else {
                ds[i]
            },
    )
}

/// The ids of the enabled descriptors among `ds`, in order.
pub open spec fn enabled_ids(ds: Seq<AchievementDescriptor>) -> Seq<usize>
    decreases ds.len(),
{
    if ds.len() == 0 {
        Seq::empty()
    } else if ds.last().enabled {
        enabled_ids(ds.drop_last()).push(ds.last().id)
    } else {
        enabled_ids(ds.drop_last())
    }
}

/// Whether no descriptor among `ds` is enabled.
pub open spec fn disabled_everywhere(ds: Seq<AchievementDescriptor>) -> bool {
    forall|i: int| 0 <= i < ds.len() ==> !(#[trigger] ds[i]).enabled
}

/// What a rule grants to `commit` under its descriptor at `index`: one
/// achievement with the name of the descriptor where it is enabled, nothing
/// where it is not.
pub open spec fn granted_under(ds: Seq<AchievementDescriptor>, index: int, commit: CommitId) -> Seq<
    Achievement,
> {
    if 0 <= index < ds.len() && ds[index].enabled {
        seq![Achievement { name: ds[index].name, commit }]
    } else {
        Seq::empty()
    }
}

/// Grants to `commit` under the descriptor at `index`, where it is enabled.
pub fn grant_under(ds: &Vec<AchievementDescriptor>, index: usize, commit: CommitId) -> (out: Vec<
    Achievement,
>)
    ensures
        out@ == granted_under(ds@, index as int, commit),
{
    let mut out: Vec<Achievement> = Vec::new();
    if index < ds.len() && ds[index].enabled {
        out.push(Achievement { name: ds[index].name, commit });
    }
    assert(out@ =~= granted_under(ds@, index as int, commit));
    out
}

/// The rule `m` after each of its descriptors with the id `id` had `enabled`
/// set; nothing else of the rule changes.
pub open spec fn set_enabled<R: Rule>(m: R::V, id: usize, enabled: bool) -> R::V {
    R::with_descriptors(m, toggled(R::descriptors(m), id, enabled))
}

/// A rule: it owns descriptors, is shown every commit of the walk, and
/// grants achievements under its enabled descriptors.
///
/// The view of a rule is all of its state. Each method has a spec function
/// that says what the call returns and what state it leaves, as a function of
/// the state before and the arguments. For one commit the engine calls
/// `process` on every rule, then `on_diff_start`, `on_diff_change` for each
/// change and `on_diff_end` on the rules that are interested in diffs; after
/// the last commit it calls `finalize`.
pub trait Rule: View + Sized {
    /// The descriptors that the rule owns.
    spec fn descriptors(m: Self::V) -> Seq<AchievementDescriptor>;

    /// The rule with other descriptors and the same state otherwise.
    spec fn with_descriptors(m: Self::V, ds: Seq<AchievementDescriptor>) -> Self::V;

    /// Whether the rule wants the changes of each commit.
    spec fn interested(m: Self::V) -> bool;

    /// The rule after it took from the record what the last run left it.
    spec fn init_cache_spec(m: Self::V, cache: EntryCacheView) -> Self::V;

    /// The record after the rule left in it what the next run needs.
    spec fn fini_cache_spec(m: Self::V, cache: EntryCacheView) -> EntryCacheView;

    /// The rule after it saw a commit, and what it granted.
    spec fn process_spec(m: Self::V, commit: Commit) -> (Self::V, Seq<Achievement>);

    /// The rule after the walk ended, and what it granted then.
    spec fn finalize_spec(m: Self::V) -> (Self::V, Seq<Achievement>);

    /// The rule after the diff of a commit began.
    spec fn diff_start_spec(m: Self::V, commit: Commit) -> Self::V;

    /// The rule after it saw one change, and whether it wants more. A rule
    /// that fails counts as one that cancels.
    spec fn diff_change_spec(m: Self::V, commit: Commit, change: TreeChange) -> (
        Self::V,
        DiffAction,
    );

    /// The rule after the diff of a commit ended, and what it granted.
    spec fn diff_end_spec(m: Self::V, commit: Commit) -> (Self::V, Seq<Achievement>);

    /// Replacing the descriptors replaces just them.
    proof fn lemma_with_descriptors(
        m: Self::V,
        a: Seq<AchievementDescriptor>,
        b: Seq<AchievementDescriptor>,
    )
        ensures
            Self::descriptors(Self::with_descriptors(m, a)) == a,
            Self::interested(Self::with_descriptors(m, a)) == Self::interested(m),
            Self::with_descriptors(m, Self::descriptors(m)) == m,
            Self::with_descriptors(Self::with_descriptors(m, a), b) == Self::with_descriptors(m, b),
    ;

    /// A rule never changes its own descriptors, and its interest in diffs
    /// stays what it is. In the record it leaves alone what the engine
    /// writes: the last commit and the ids.
    proof fn lemma_descriptors_stay(
        m: Self::V,
        commit: Commit,
        change: TreeChange,
        cache: EntryCacheView,
    )
        ensures
            Self::descriptors(Self::init_cache_spec(m, cache)) == Self::descriptors(m),
            Self::descriptors(Self::process_spec(m, commit).0) == Self::descriptors(m),
            Self::descriptors(Self::finalize_spec(m).0) == Self::descriptors(m),
            Self::descriptors(Self::diff_start_spec(m, commit)) == Self::descriptors(m),
            Self::descriptors(Self::diff_change_spec(m, commit, change).0) == Self::descriptors(m),
            Self::descriptors(Self::diff_end_spec(m, commit).0) == Self::descriptors(m),
            Self::interested(Self::init_cache_spec(m, cache)) == Self::interested(m),
            Self::interested(Self::process_spec(m, commit).0) == Self::interested(m),
            Self::interested(Self::finalize_spec(m).0) == Self::interested(m),
            Self::interested(Self::diff_start_spec(m, commit)) == Self::interested(m),
            Self::interested(Self::diff_change_spec(m, commit, change).0) == Self::interested(m),
            Self::interested(Self::diff_end_spec(m, commit).0) == Self::interested(m),
            Self::fini_cache_spec(m, cache).last_processed_commit == cache.last_processed_commit,
            Self::fini_cache_spec(m, cache).last_processed_rules == cache.last_processed_rules,
    ;

    /// The descriptors that this rule can grant achievements under.
    fn get_descriptors(&self) -> (out: &[AchievementDescriptor])
        ensures
            out@ == Self::descriptors(self@),
    ;

    /// The same descriptors, open to change.
    fn get_descriptors_mut(&mut self) -> (out: &mut [AchievementDescriptor])
        ensures
            out@ == Self::descriptors(old(self)@),
            final(self)@ == Self::with_descriptors(old(self)@, final(out)@),
    ;

    /// Stops granting under each descriptor with the given id. Does nothing
    /// where the rule owns none.
    fn disable_by_id(&mut self, id: usize)
        ensures
            final(self)@ == Self::with_descriptors(
                old(self)@,
                toggled(Self::descriptors(old(self)@), id, false),
            ),
    {
        let ds = self.get_descriptors_mut();
        let ghost orig = ds@;
        let mut i: usize = 0;
        while i < ds.len()
            invariant
                ds@.len() == orig.len(),
                i <= ds@.len(),
                forall|j: int| 0 <= j < i ==> ds@[j] == toggled(orig, id, false)[j],
                forall|j: int| i <= j < ds@.len() ==> ds@[j] == orig[j],
            decreases ds@.len() - i,
        {
            if ds[i].id == id {
                ds[i].enabled = false;
            }
            i += 1;
        }
        assert(ds@ =~= toggled(orig, id, false));
    }

    /// Grants again under each descriptor with the given id. Does nothing
    /// where the rule owns none.
    fn enable_by_id(&mut self, id: usize)
        ensures
            final(self)@ == Self::with_descriptors(
                old(self)@,
                toggled(Self::descriptors(old(self)@), id, true),
            ),
    {
        let ds = self.get_descriptors_mut();
        let ghost orig = ds@;
        let mut i: usize = 0;
        while i < ds.len()
            invariant
                ds@.len() == orig.len(),
                i <= ds@.len(),
                forall|j: int| 0 <= j < i ==> ds@[j] == toggled(orig, id, true)[j],
                forall|j: int| i <= j < ds@.len() ==> ds@[j] == orig[j],
            decreases ds@.len() - i,
        {
            if ds[i].id == id {
                ds[i].enabled = true;
            }
            i += 1;
        }
        assert(ds@ =~= toggled(orig, id, true));
    }

    /// Takes from the record what the last run left for this rule.
    fn init_cache(&mut self, cache: &EntryCache)
        ensures
            final(self)@ == Self::init_cache_spec(old(self)@, cache@),
    ;

    /// Leaves in the record what the next run needs of this rule.
    fn fini_cache(&self, cache: &mut EntryCache)
        ensures
            final(cache)@ == Self::fini_cache_spec(self@, old(cache)@),
    ;

    /// Looks at one commit. Called for every commit, in walk order; the rule
    /// may remember what it saw.
    fn process(&mut self, commit: &Commit) -> (out: Vec<Achievement>)
        ensures
            final(self)@ == Self::process_spec(old(self)@, *commit).0,
            out@ == Self::process_spec(old(self)@, *commit).1,
    ;

    /// Called once, after the last commit: the place for a rule that compares
    /// all commits to grant.
    fn finalize(&mut self) -> (out: Vec<Achievement>)
        ensures
            final(self)@ == Self::finalize_spec(old(self)@).0,
            out@ == Self::finalize_spec(old(self)@).1,
    ;

    /// Whether this rule wants the changes of each commit.
    fn is_interested_in_diffs(&self) -> (r: bool)
        ensures
            r == Self::interested(self@),
    ;

    /// The diff of `commit` begins.
    fn on_diff_start(&mut self, commit: &Commit)
        ensures
            final(self)@ == Self::diff_start_spec(old(self)@, *commit),
    ;

    /// One change of the diff of `commit`. On [`DiffAction::Cancel`], and on
    /// an error, the rule is shown no more changes of this commit.
    fn on_diff_change(&mut self, commit: &Commit, change: &TreeChange) -> (out: Result<
        DiffAction,
        RuleError,
    >)
        ensures
            final(self)@ == Self::diff_change_spec(old(self)@, *commit, *change).0,
            out matches Ok(action) ==> action == Self::diff_change_spec(
                old(self)@,
                *commit,
                *change,
            ).1,
            out is Err ==> Self::diff_change_spec(old(self)@, *commit, *change).1
                == DiffAction::Cancel,
    ;

    /// The diff of `commit` ended. Called whatever `on_diff_change` answered.
    fn on_diff_end(&mut self, commit: &Commit) -> (out: Vec<Achievement>)
        ensures
            final(self)@ == Self::diff_end_spec(old(self)@, *commit).0,
            out@ == Self::diff_end_spec(old(self)@, *commit).1,
    ;
}

} // verus!
