//! Commit messages that are not valid UTF-8.
use vstd::prelude::*;
use vstd::utf8::valid_utf8;

use crate::achievement::{
    grant_under, granted_under, Achievement, AchievementDescriptor, DiffAction, Rule, RuleError,
};
use crate::cache::{EntryCache, EntryCacheView};
use crate::git::{Commit, TreeChange};
use crate::utils::text::is_utf8;

verus! {

/// Grants an achievement to each commit whose message holds a byte that is
/// not valid UTF-8.
pub struct NonUnicode {
    pub descriptors: Vec<AchievementDescriptor>,
}

impl View for NonUnicode {
    type V = Seq<AchievementDescriptor>;

    open spec fn view(&self) -> Seq<AchievementDescriptor> {
        self.descriptors@
    }
}

/// The descriptor of [`NonUnicode`].
pub open spec fn non_unicode_descriptor() -> AchievementDescriptor {
    AchievementDescriptor {
        enabled: true,
        id: 4,
        human_id: "non-unicode",
        name: "But ... How?!",
        description: "Make a commit message containing a non UTF-8 byte",
    }
}

/// Whether the title or the body of a commit is not valid UTF-8.
pub open spec fn is_non_unicode(commit: Commit) -> bool {
    !valid_utf8(commit.message_title@) || !valid_utf8(commit.message_body@)
}

impl Default for NonUnicode {
    fn default() -> (rule: Self)
        ensures
            rule@ == seq![non_unicode_descriptor()],
    {
        let mut descriptors: Vec<AchievementDescriptor> = Vec::new();
        descriptors.push(
            AchievementDescriptor {
                enabled: true,
                id: 4,
                human_id: "non-unicode",
                name: "But ... How?!",
                description: "Make a commit message containing a non UTF-8 byte",
            },
        );
        assert(descriptors@ =~= seq![non_unicode_descriptor()]);
        Self { descriptors }
    }
}

impl Rule for NonUnicode {
    open spec fn descriptors(m: Self::V) -> Seq<AchievementDescriptor> {
        m
    }

    open spec fn with_descriptors(m: Self::V, ds: Seq<AchievementDescriptor>) -> Self::V {
        ds
    }

    open spec fn interested(m: Self::V) -> bool {
        false
    }

    open spec fn init_cache_spec(m: Self::V, cache: EntryCacheView) -> Self::V {
        m
    }

    open spec fn fini_cache_spec(m: Self::V, cache: EntryCacheView) -> EntryCacheView {
        cache
    }

    open spec fn process_spec(m: Self::V, commit: Commit) -> (Self::V, Seq<Achievement>) {
        (
            m,
            if is_non_unicode(commit) {
                granted_under(m, 0, commit.id)
            } else {
                Seq::empty()
            },
        )
    }

    open spec fn finalize_spec(m: Self::V) -> (Self::V, Seq<Achievement>) {
        (m, Seq::empty())
    }

    open spec fn diff_start_spec(m: Self::V, commit: Commit) -> Self::V {
        m
    }

    open spec fn diff_change_spec(m: Self::V, commit: Commit, change: TreeChange) -> (
        Self::V,
        DiffAction,
    ) {
        (m, DiffAction::Cancel)
    }

    open spec fn diff_end_spec(m: Self::V, commit: Commit) -> (Self::V, Seq<Achievement>) {
        (m, Seq::empty())
    }

    proof fn lemma_with_descriptors(
        m: Self::V,
        a: Seq<AchievementDescriptor>,
        b: Seq<AchievementDescriptor>,
    ) {
    }

    proof fn lemma_descriptors_stay(
        m: Self::V,
        commit: Commit,
        change: TreeChange,
        cache: EntryCacheView,
    ) {
    }

    fn get_descriptors(&self) -> (out: &[AchievementDescriptor]) {
        self.descriptors.as_slice()
    }

    fn get_descriptors_mut(&mut self) -> (out: &mut [AchievementDescriptor]) {
        self.descriptors.as_mut_slice()
    }

    fn init_cache(&mut self, cache: &EntryCache) {
    }

    fn fini_cache(&self, cache: &mut EntryCache) {
    }

    fn process(&mut self, commit: &Commit) -> (out: Vec<Achievement>) {
        if !is_utf8(commit.message_title.as_slice()) || !is_utf8(commit.message_body.as_slice()) {
            grant_under(&self.descriptors, 0, commit.id)
        } else {
            Vec::new()
        }
    }

    fn finalize(&mut self) -> (out: Vec<Achievement>) {
        Vec::new()
    }

    fn is_interested_in_diffs(&self) -> (r: bool) {
        false
    }

    fn on_diff_start(&mut self, commit: &Commit) {
    }

    fn on_diff_change(&mut self, commit: &Commit, change: &TreeChange) -> (out: Result<
        DiffAction,
        RuleError,
    >)
        ensures
            out matches Ok(action) && action == DiffAction::Cancel,
    {
        Ok(DiffAction::Cancel)
    }

    fn on_diff_end(&mut self, commit: &Commit) -> (out: Vec<Achievement>) {
        Vec::new()
    }
}

} // verus!
