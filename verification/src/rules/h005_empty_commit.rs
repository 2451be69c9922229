//! Commits that change nothing.
use vstd::prelude::*;

use crate::achievement::{
    grant_under, granted_under, Achievement, AchievementDescriptor, DiffAction, Rule, RuleError,
};
use crate::cache::{EntryCache, EntryCacheView};
use crate::git::{Commit, TreeChange};

verus! {

/// Grants an achievement to each commit whose diff holds no change, as
/// `git commit --allow-empty` makes them.
pub struct EmptyCommit {
    pub descriptors: Vec<AchievementDescriptor>,
    /// Whether the diff at hand has shown a change.
    pub found_any_change: bool,
}

/// The state of an [`EmptyCommit`].
pub struct EmptyCommitView {
    pub descriptors: Seq<AchievementDescriptor>,
    pub found_any_change: bool,
}

impl View for EmptyCommit {
    type V = EmptyCommitView;

    open spec fn view(&self) -> EmptyCommitView {
        EmptyCommitView {
            descriptors: self.descriptors@,
            found_any_change: self.found_any_change,
        }
    }
}

/// The descriptor of [`EmptyCommit`].
pub open spec fn empty_commit_descriptor() -> AchievementDescriptor {
    AchievementDescriptor {
        enabled: true,
        id: 5,
        human_id: "empty-commit",
        name: "You can always add more later",
        description: "Create an empty commit containing no changes",
    }
}

impl Default for EmptyCommit {
    fn default() -> (rule: Self)
        ensures
            rule@ == (EmptyCommitView {
                descriptors: seq![empty_commit_descriptor()],
                found_any_change: false,
            }),
    {
        let mut descriptors: Vec<AchievementDescriptor> = Vec::new();
        descriptors.push(
            AchievementDescriptor {
                enabled: true,
                id: 5,
                human_id: "empty-commit",
                name: "You can always add more later",
                description: "Create an empty commit containing no changes",
            },
        );
        assert(descriptors@ =~= seq![empty_commit_descriptor()]);
        Self { descriptors, found_any_change: false }
    }
}

impl Rule for EmptyCommit {
    open spec fn descriptors(m: Self::V) -> Seq<AchievementDescriptor> {
        m.descriptors
    }

    open spec fn with_descriptors(m: Self::V, ds: Seq<AchievementDescriptor>) -> Self::V {
        EmptyCommitView { descriptors: ds, ..m }
    }

    open spec fn interested(m: Self::V) -> bool {
        true
    }

    open spec fn init_cache_spec(m: Self::V, cache: EntryCacheView) -> Self::V {
        m
    }

    open spec fn fini_cache_spec(m: Self::V, cache: EntryCacheView) -> EntryCacheView {
        cache
    }

    open spec fn process_spec(m: Self::V, commit: Commit) -> (Self::V, Seq<Achievement>) {
        (m, Seq::empty())
    }

    open spec fn finalize_spec(m: Self::V) -> (Self::V, Seq<Achievement>) {
        (m, Seq::empty())
    }

    open spec fn diff_start_spec(m: Self::V, commit: Commit) -> Self::V {
        EmptyCommitView { found_any_change: false, ..m }
    }

    open spec fn diff_change_spec(m: Self::V, commit: Commit, change: TreeChange) -> (
        Self::V,
        DiffAction,
    ) {
        (EmptyCommitView { found_any_change: true, ..m }, DiffAction::Cancel)
    }

    open spec fn diff_end_spec(m: Self::V, commit: Commit) -> (Self::V, Seq<Achievement>) {
        (
            m,
            if m.found_any_change {
                Seq::empty()
            } else {
                granted_under(m.descriptors, 0, commit.id)
            },
        )
    }

    proof fn lemma_with_descriptors(
        m: Self::V,
        a: Seq<AchievementDescriptor>,
        b: Seq<AchievementDescriptor>,
    ) {
    }

    proof fn lemma_descriptors_stay(
        m: Self::V,
        commit: Commit,
        change: TreeChange,
        cache: EntryCacheView,
    ) {
    }

    fn get_descriptors(&self) -> (out: &[AchievementDescriptor]) {
        self.descriptors.as_slice()
    }

    fn get_descriptors_mut(&mut self) -> (out: &mut [AchievementDescriptor]) {
        self.descriptors.as_mut_slice()
    }

    fn init_cache(&mut self, cache: &EntryCache) {
    }

    fn fini_cache(&self, cache: &mut EntryCache) {
    }

    fn process(&mut self, commit: &Commit) -> (out: Vec<Achievement>) {
        Vec::new()
    }

    fn finalize(&mut self) -> (out: Vec<Achievement>) {
        Vec::new()
    }

    fn is_interested_in_diffs(&self) -> (r: bool) {
        true
    }

    fn on_diff_start(&mut self, commit: &Commit) {
        self.found_any_change = false;
    }

    fn on_diff_change(&mut self, commit: &Commit, change: &TreeChange) -> (out: Result<
        DiffAction,
        RuleError,
    >)
        ensures
            out matches Ok(action) && action == DiffAction::Cancel,
    {
        self.found_any_change = true;
        Ok(DiffAction::Cancel)
    }

    fn on_diff_end(&mut self, commit: &Commit) -> (out: Vec<Achievement>) {
        if self.found_any_change {
            Vec::new()
        } else {
            grant_under(&self.descriptors, 0, commit.id)
        }
    }
}

} // verus!
