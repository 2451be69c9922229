//! Commits that change nothing but whitespace.
use vstd::prelude::*;

use crate::achievement::{
    grant_under, granted_under, Achievement, AchievementDescriptor, DiffAction, Rule, RuleError,
};
use crate::cache::{EntryCache, EntryCacheView};
use crate::git::{Commit, EntryMode, TreeChange};
use crate::utils::utf8_whitespace::{is_equal_ignoring_whitespace, same_ignoring_whitespace};

verus! {

/// Grants an achievement to each commit that changes files, and in each of
/// them nothing but whitespace.
pub struct WhitespaceOnly {
    pub descriptors: Vec<AchievementDescriptor>,
    /// Whether the diff at hand has shown a change that is more than
    /// whitespace.
    pub found_non_whitespace_difference: bool,
    /// Whether the diff at hand has shown a change at all.
    pub found_any_change: bool,
}

/// The state of a [`WhitespaceOnly`].
pub struct WhitespaceOnlyView {
    pub descriptors: Seq<AchievementDescriptor>,
    pub found_non_whitespace_difference: bool,
    pub found_any_change: bool,
}

impl View for WhitespaceOnly {
    type V = WhitespaceOnlyView;

    open spec fn view(&self) -> WhitespaceOnlyView {
        WhitespaceOnlyView {
            descriptors: self.descriptors@,
            found_non_whitespace_difference: self.found_non_whitespace_difference,
            found_any_change: self.found_any_change,
        }
    }
}

/// The descriptor of [`WhitespaceOnly`].
pub open spec fn whitespace_only_descriptor() -> AchievementDescriptor {
    AchievementDescriptor {
        enabled: true,
        id: 6,
        human_id: "whitespace-only",
        name: "Whitespace Warrior",
        description: "Make a whitespace-only change",
    }
}

/// What one change means to the rule: whether it is more than whitespace,
/// and whether the rule wants to see the next change.
///
/// A change of a submodule is more than whitespace. A change of a tree only
/// says that something below it changed, and is passed over. A change of a
/// file is more than whitespace unless its two sides are the same apart from
/// whitespace. Anything added, deleted or moved is more than whitespace.
pub open spec fn whitespace_verdict(change: TreeChange) -> (bool, DiffAction) {
    match change {
        TreeChange::Modification { old_mode, new_mode, old_content, new_content, .. } => {
            if new_mode == EntryMode::Submodule {
                (true, DiffAction::Cancel)
            } else if old_mode == EntryMode::Tree {
                (false, DiffAction::Continue)
            } else if !same_ignoring_whitespace(old_content@, new_content@) {
                (true, DiffAction::Cancel)
            } else {
                (false, DiffAction::Continue)
            }
        },
        _ => (true, DiffAction::Cancel),
    }
}

impl Default for WhitespaceOnly {
    fn default() -> (rule: Self)
        ensures
            rule@ == (WhitespaceOnlyView {
                descriptors: seq![whitespace_only_descriptor()],
                found_non_whitespace_difference: false,
                found_any_change: false,
            }),
    {
        let mut descriptors: Vec<AchievementDescriptor> = Vec::new();
        descriptors.push(
            AchievementDescriptor {
                enabled: true,
                id: 6,
                human_id: "whitespace-only",
                name: "Whitespace Warrior",
                description: "Make a whitespace-only change",
            },
        );
        assert(descriptors@ =~= seq![whitespace_only_descriptor()]);
        Self { descriptors, found_non_whitespace_difference: false, found_any_change: false }
    }
}

impl WhitespaceOnly {
    /// Looks at the two sides of a file that changed.
    fn on_modification(&mut self, old_content: &Vec<u8>, new_content: &Vec<u8>) -> (action:
        DiffAction)
        ensures
            final(self).descriptors == old(self).descriptors,
            final(self).found_any_change == old(self).found_any_change,
            same_ignoring_whitespace(old_content@, new_content@) ==> action == DiffAction::Continue
                && final(self).found_non_whitespace_difference
                == old(self).found_non_whitespace_difference,
            !same_ignoring_whitespace(old_content@, new_content@) ==> action == DiffAction::Cancel
                && final(self).found_non_whitespace_difference,
    {
        if !is_equal_ignoring_whitespace(old_content.as_slice(), new_content.as_slice()) {
            self.found_non_whitespace_difference = true;
            DiffAction::Cancel
        } else {
            DiffAction::Continue
        }
    }
}

impl Rule for WhitespaceOnly {
    open spec fn descriptors(m: Self::V) -> Seq<AchievementDescriptor> {
        m.descriptors
    }

    open spec fn with_descriptors(m: Self::V, ds: Seq<AchievementDescriptor>) -> Self::V {
        WhitespaceOnlyView { descriptors: ds, ..m }
    }

    open spec fn interested(m: Self::V) -> bool {
        true
    }

    open spec fn init_cache_spec(m: Self::V, cache: EntryCacheView) -> Self::V {
        m
    }

    open spec fn fini_cache_spec(m: Self::V, cache: EntryCacheView) -> EntryCacheView {
        cache
    }

    open spec fn process_spec(m: Self::V, commit: Commit) -> (Self::V, Seq<Achievement>) {
        (m, Seq::empty())
    }

    open spec fn finalize_spec(m: Self::V) -> (Self::V, Seq<Achievement>) {
        (m, Seq::empty())
    }

    open spec fn diff_start_spec(m: Self::V, commit: Commit) -> Self::V {
        WhitespaceOnlyView {
            found_non_whitespace_difference: false,
            found_any_change: false,
            ..m
        }
    }

    open spec fn diff_change_spec(m: Self::V, commit: Commit, change: TreeChange) -> (
        Self::V,
        DiffAction,
    ) {
        (
            WhitespaceOnlyView {
                found_non_whitespace_difference: m.found_non_whitespace_difference
                    || whitespace_verdict(change).0,
                found_any_change: true,
                ..m
            },
            whitespace_verdict(change).1,
        )
    }

    open spec fn diff_end_spec(m: Self::V, commit: Commit) -> (Self::V, Seq<Achievement>) {
        (
            m,
            if m.found_non_whitespace_difference || !m.found_any_change {
                Seq::empty()
            } else {
                granted_under(m.descriptors, 0, commit.id)
            },
        )
    }

    proof fn lemma_with_descriptors(
        m: Self::V,
        a: Seq<AchievementDescriptor>,
        b: Seq<AchievementDescriptor>,
    ) {
    }

    proof fn lemma_descriptors_stay(
        m: Self::V,
        commit: Commit,
        change: TreeChange,
        cache: EntryCacheView,
    ) {
    }

    fn get_descriptors(&self) -> (out: &[AchievementDescriptor]) {
        self.descriptors.as_slice()
    }

    fn get_descriptors_mut(&mut self) -> (out: &mut [AchievementDescriptor]) {
        self.descriptors.as_mut_slice()
    }

    fn init_cache(&mut self, cache: &EntryCache) {
    }

    fn fini_cache(&self, cache: &mut EntryCache) {
    }

    fn process(&mut self, commit: &Commit) -> (out: Vec<Achievement>) {
        Vec::new()
    }

    fn finalize(&mut self) -> (out: Vec<Achievement>) {
        Vec::new()
    }

    fn is_interested_in_diffs(&self) -> (r: bool) {
        true
    }

    fn on_diff_start(&mut self, commit: &Commit) {
        self.found_non_whitespace_difference = false;
        self.found_any_change = false;
    }

    fn on_diff_change(&mut self, commit: &Commit, change: &TreeChange) -> (out: Result<
        DiffAction,
        RuleError,
    >)
        ensures
            out is Ok,
    {
        self.found_any_change = true;
        match change {
            TreeChange::Modification { old_mode, new_mode, old_content, new_content, .. } => {
                if *new_mode == EntryMode::Submodule {
                    // The commit that a submodule points to has changed.
                    self.found_non_whitespace_difference = true;
                    return Ok(DiffAction::Cancel);
                }
                if *old_mode == EntryMode::Tree {
                    return Ok(DiffAction::Continue);
                }
                Ok(self.on_modification(old_content, new_content))
            },
            // Additions, deletions and rewrites are always more than whitespace.
            _ => {
                self.found_non_whitespace_difference = true;
                Ok(DiffAction::Cancel)
            },
        }
    }

    fn on_diff_end(&mut self, commit: &Commit) -> (out: Vec<Achievement>) {
        // A commit that changes nothing does not change whitespace only.
        if self.found_non_whitespace_difference || !self.found_any_change {
            Vec::new()
        } else {
            grant_under(&self.descriptors, 0, commit.id)
        }
    }
}

} // verus!
