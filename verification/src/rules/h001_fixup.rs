//! Commits that were meant to be squashed away.
use vstd::prelude::*;
use vstd::string::*;

use crate::achievement::{
    grant_under, granted_under, Achievement, AchievementDescriptor, DiffAction, Rule, RuleError,
};
use crate::cache::{EntryCache, EntryCacheView};
use crate::git::{Commit, TreeChange};
use crate::utils::text::{bytes_occur_at, occurs_at};

verus! {

/// Grants an achievement to each commit whose title begins with
///
/// * `fixup!`, `squash!` or `amend!`, as `git commit --fixup` and its like
///   write them,
/// * `WIP`, `TODO`, `FIXME` or `DROPME`, or one of these in lower case,
///   where `wip` counts only with a colon behind it: of all these it is the
///   one most likely to begin a real word.
pub struct Fixup {
    pub descriptors: Vec<AchievementDescriptor>,
}

impl View for Fixup {
    type V = Seq<AchievementDescriptor>;

    open spec fn view(&self) -> Seq<AchievementDescriptor> {
        self.descriptors@
    }
}

/// The descriptor of [`Fixup`].
pub open spec fn fixup_descriptor() -> AchievementDescriptor {
    AchievementDescriptor {
        enabled: true,
        id: 1,
        human_id: "fixup",
        name: "I meant to fix that up later, I swear!",
        description: "Prefix a commit message with a !fixup marker",
    }
}

/// Whether a title begins with one of the markers of a commit that was meant
/// to be squashed away.
pub open spec fn is_fixup_title(title: Seq<u8>) -> bool {
    ||| occurs_at(title, "fixup!".spec_bytes(), 0)
    ||| occurs_at(title, "squash!".spec_bytes(), 0)
    ||| occurs_at(title, "amend!".spec_bytes(), 0)
    ||| occurs_at(title, "WIP".spec_bytes(), 0)
    ||| occurs_at(title, "TODO".spec_bytes(), 0)
    ||| occurs_at(title, "FIXME".spec_bytes(), 0)
    ||| occurs_at(title, "DROPME".spec_bytes(), 0)
    ||| occurs_at(title, "wip:".spec_bytes(), 0)
    ||| occurs_at(title, "todo".spec_bytes(), 0)
    ||| occurs_at(title, "fixme".spec_bytes(), 0)
    ||| occurs_at(title, "dropme".spec_bytes(), 0)
}

/// Whether `title` begins with the bytes of `prefix`.
fn has_prefix(title: &[u8], prefix: &str) -> (r: bool)
    ensures
        r == occurs_at(title@, prefix.spec_bytes(), 0),
{
    bytes_occur_at(title, prefix.as_bytes(), 0)
}

impl Default for Fixup {
    fn default() -> (rule: Self)
        ensures
            rule@ == seq![fixup_descriptor()],
    {
        let mut descriptors: Vec<AchievementDescriptor> = Vec::new();
        descriptors.push(
            AchievementDescriptor {
                enabled: true,
                id: 1,
                human_id: "fixup",
                name: "I meant to fix that up later, I swear!",
                description: "Prefix a commit message with a !fixup marker",
            },
        );
        assert(descriptors@ =~= seq![fixup_descriptor()]);
        Self { descriptors }
    }
}

impl Rule for Fixup {
    open spec fn descriptors(m: Self::V) -> Seq<AchievementDescriptor> {
        m
    }

    open spec fn with_descriptors(m: Self::V, ds: Seq<AchievementDescriptor>) -> Self::V {
        ds
    }

    open spec fn interested(m: Self::V) -> bool {
        false
    }

    open spec fn init_cache_spec(m: Self::V, cache: EntryCacheView) -> Self::V {
        m
    }

    open spec fn fini_cache_spec(m: Self::V, cache: EntryCacheView) -> EntryCacheView {
        cache
    }

    open spec fn process_spec(m: Self::V, commit: Commit) -> (Self::V, Seq<Achievement>) {
        (
            m,
            if is_fixup_title(commit.message_title@) {
                granted_under(m, 0, commit.id)
            } else {
                Seq::empty()
            },
        )
    }

    open spec fn finalize_spec(m: Self::V) -> (Self::V, Seq<Achievement>) {
        (m, Seq::empty())
    }

    open spec fn diff_start_spec(m: Self::V, commit: Commit) -> Self::V {
        m
    }

    open spec fn diff_change_spec(m: Self::V, commit: Commit, change: TreeChange) -> (
        Self::V,
        DiffAction,
    ) {
        (m, DiffAction::Cancel)
    }

    open spec fn diff_end_spec(m: Self::V, commit: Commit) -> (Self::V, Seq<Achievement>) {
        (m, Seq::empty())
    }

    proof fn lemma_with_descriptors(
        m: Self::V,
        a: Seq<AchievementDescriptor>,
        b: Seq<AchievementDescriptor>,
    ) {
    }

    proof fn lemma_descriptors_stay(
        m: Self::V,
        commit: Commit,
        change: TreeChange,
        cache: EntryCacheView,
    ) {
    }

    fn get_descriptors(&self) -> (out: &[AchievementDescriptor]) {
        self.descriptors.as_slice()
    }

    fn get_descriptors_mut(&mut self) -> (out: &mut [AchievementDescriptor]) {
        self.descriptors.as_mut_slice()
    }

    fn init_cache(&mut self, cache: &EntryCache) {
    }

    fn fini_cache(&self, cache: &mut EntryCache) {
    }

    fn process(&mut self, commit: &Commit) -> (out: Vec<Achievement>) {
        let title = commit.message_title.as_slice();
        if has_prefix(title, "fixup!") || has_prefix(title, "squash!") || has_prefix(
            title,
            "amend!",
        ) || has_prefix(title, "WIP") || has_prefix(title, "TODO") || has_prefix(title, "FIXME")
            || has_prefix(title, "DROPME") || has_prefix(title, "wip:") || has_prefix(
            title,
            "todo",
        ) || has_prefix(title, "fixme") || has_prefix(title, "dropme") {
            grant_under(&self.descriptors, 0, commit.id)
        } else {
            Vec::new()
        }
    }

    fn finalize(&mut self) -> (out: Vec<Achievement>) {
        Vec::new()
    }

    fn is_interested_in_diffs(&self) -> (r: bool) {
        false
    }

    fn on_diff_start(&mut self, commit: &Commit) {
    }

    fn on_diff_change(&mut self, commit: &Commit, change: &TreeChange) -> (out: Result<
        DiffAction,
        RuleError,
    >)
        ensures
            out matches Ok(action) && action == DiffAction::Cancel,
    {
        Ok(DiffAction::Cancel)
    }

    fn on_diff_end(&mut self, commit: &Commit) -> (out: Vec<Achievement>) {
        Vec::new()
    }
}

} // verus!
