//! The rules that come with the program, as one type.
use vstd::prelude::*;

use crate::achievement::{Achievement, AchievementDescriptor, DiffAction, Rule, RuleError};
use crate::cache::{EntryCache, EntryCacheView};
use crate::git::{Commit, TreeChange};
use crate::rules::h001_fixup::Fixup;
use crate::rules::h002_h003_subject_line::{SubjectLineLength, SubjectLineLengthView};
use crate::rules::h004_non_unicode::NonUnicode;
use crate::rules::h005_empty_commit::{EmptyCommit, EmptyCommitView};
use crate::rules::h006_whitespace_only::{WhitespaceOnly, WhitespaceOnlyView};

verus! {

/// One of the rules that come with the program.
pub enum BuiltinRule {
    Fixup(Fixup),
    SubjectLineLength(SubjectLineLength),
    NonUnicode(NonUnicode),
    EmptyCommit(EmptyCommit),
    WhitespaceOnly(WhitespaceOnly),
}

/// The state of a [`BuiltinRule`].
pub enum BuiltinRuleView {
    Fixup(Seq<AchievementDescriptor>),
    SubjectLineLength(SubjectLineLengthView),
    NonUnicode(Seq<AchievementDescriptor>),
    EmptyCommit(EmptyCommitView),
    WhitespaceOnly(WhitespaceOnlyView),
}

impl View for BuiltinRule {
    type V = BuiltinRuleView;

    open spec fn view(&self) -> BuiltinRuleView {
        match self {
            BuiltinRule::Fixup(rule) => BuiltinRuleView::Fixup(rule@),
            BuiltinRule::SubjectLineLength(rule) => BuiltinRuleView::SubjectLineLength(rule@),
            BuiltinRule::NonUnicode(rule) => BuiltinRuleView::NonUnicode(rule@),
            BuiltinRule::EmptyCommit(rule) => BuiltinRuleView::EmptyCommit(rule@),
            BuiltinRule::WhitespaceOnly(rule) => BuiltinRuleView::WhitespaceOnly(rule@),
        }
    }
}

impl Rule for BuiltinRule {
    open spec fn descriptors(m: Self::V) -> Seq<AchievementDescriptor> {
        match m {
            BuiltinRuleView::Fixup(m) => Fixup::descriptors(m),
            BuiltinRuleView::SubjectLineLength(m) => SubjectLineLength::descriptors(m),
            BuiltinRuleView::NonUnicode(m) => NonUnicode::descriptors(m),
            BuiltinRuleView::EmptyCommit(m) => EmptyCommit::descriptors(m),
            BuiltinRuleView::WhitespaceOnly(m) => WhitespaceOnly::descriptors(m),
        }
    }

    open spec fn with_descriptors(m: Self::V, ds: Seq<AchievementDescriptor>) -> Self::V {
        match m {
            BuiltinRuleView::Fixup(m) => BuiltinRuleView::Fixup(Fixup::with_descriptors(m, ds)),
            BuiltinRuleView::SubjectLineLength(m) => {
                BuiltinRuleView::SubjectLineLength(SubjectLineLength::with_descriptors(m, ds))
            },
            BuiltinRuleView::NonUnicode(m) => {
                BuiltinRuleView::NonUnicode(NonUnicode::with_descriptors(m, ds))
            },
            BuiltinRuleView::EmptyCommit(m) => {
                BuiltinRuleView::EmptyCommit(EmptyCommit::with_descriptors(m, ds))
            },
            BuiltinRuleView::WhitespaceOnly(m) => {
                BuiltinRuleView::WhitespaceOnly(WhitespaceOnly::with_descriptors(m, ds))
            },
        }
    }

    open spec fn interested(m: Self::V) -> bool {
        match m {
            BuiltinRuleView::Fixup(m) => Fixup::interested(m),
            BuiltinRuleView::SubjectLineLength(m) => SubjectLineLength::interested(m),
            BuiltinRuleView::NonUnicode(m) => NonUnicode::interested(m),
            BuiltinRuleView::EmptyCommit(m) => EmptyCommit::interested(m),
            BuiltinRuleView::WhitespaceOnly(m) => WhitespaceOnly::interested(m),
        }
    }

    open spec fn init_cache_spec(m: Self::V, cache: EntryCacheView) -> Self::V {
        match m {
            BuiltinRuleView::Fixup(m) => BuiltinRuleView::Fixup(Fixup::init_cache_spec(m, cache)),
            BuiltinRuleView::SubjectLineLength(m) => {
                BuiltinRuleView::SubjectLineLength(SubjectLineLength::init_cache_spec(m, cache))
            },
            BuiltinRuleView::NonUnicode(m) => {
                BuiltinRuleView::NonUnicode(NonUnicode::init_cache_spec(m, cache))
            },
            BuiltinRuleView::EmptyCommit(m) => {
                BuiltinRuleView::EmptyCommit(EmptyCommit::init_cache_spec(m, cache))
            },
            BuiltinRuleView::WhitespaceOnly(m) => {
                BuiltinRuleView::WhitespaceOnly(WhitespaceOnly::init_cache_spec(m, cache))
            },
        }
    }

    open spec fn fini_cache_spec(m: Self::V, cache: EntryCacheView) -> EntryCacheView {
        match m {
            BuiltinRuleView::Fixup(m) => Fixup::fini_cache_spec(m, cache),
            BuiltinRuleView::SubjectLineLength(m) => SubjectLineLength::fini_cache_spec(m, cache),
            BuiltinRuleView::NonUnicode(m) => NonUnicode::fini_cache_spec(m, cache),
            BuiltinRuleView::EmptyCommit(m) => EmptyCommit::fini_cache_spec(m, cache),
            BuiltinRuleView::WhitespaceOnly(m) => WhitespaceOnly::fini_cache_spec(m, cache),
        }
    }

    open spec fn process_spec(m: Self::V, commit: Commit) -> (Self::V, Seq<Achievement>) {
        match m {
            BuiltinRuleView::Fixup(m) => (
                BuiltinRuleView::Fixup(Fixup::process_spec(m, commit).0),
                Fixup::process_spec(m, commit).1,
            ),
            BuiltinRuleView::SubjectLineLength(m) => (
                BuiltinRuleView::SubjectLineLength(SubjectLineLength::process_spec(m, commit).0),
                SubjectLineLength::process_spec(m, commit).1,
            ),
            BuiltinRuleView::NonUnicode(m) => (
                BuiltinRuleView::NonUnicode(NonUnicode::process_spec(m, commit).0),
                NonUnicode::process_spec(m, commit).1,
            ),
            BuiltinRuleView::EmptyCommit(m) => (
                BuiltinRuleView::EmptyCommit(EmptyCommit::process_spec(m, commit).0),
                EmptyCommit::process_spec(m, commit).1,
            ),
            BuiltinRuleView::WhitespaceOnly(m) => (
                BuiltinRuleView::WhitespaceOnly(WhitespaceOnly::process_spec(m, commit).0),
                WhitespaceOnly::process_spec(m, commit).1,
            ),
        }
    }

    open spec fn finalize_spec(m: Self::V) -> (Self::V, Seq<Achievement>) {
        match m {
            BuiltinRuleView::Fixup(m) => (
                BuiltinRuleView::Fixup(Fixup::finalize_spec(m).0),
                Fixup::finalize_spec(m).1,
            ),
            BuiltinRuleView::SubjectLineLength(m) => (
                BuiltinRuleView::SubjectLineLength(SubjectLineLength::finalize_spec(m).0),
                SubjectLineLength::finalize_spec(m).1,
            ),
            BuiltinRuleView::NonUnicode(m) => (
                BuiltinRuleView::NonUnicode(NonUnicode::finalize_spec(m).0),
                NonUnicode::finalize_spec(m).1,
            ),
            BuiltinRuleView::EmptyCommit(m) => (
                BuiltinRuleView::EmptyCommit(EmptyCommit::finalize_spec(m).0),
                EmptyCommit::finalize_spec(m).1,
            ),
            BuiltinRuleView::WhitespaceOnly(m) => (
                BuiltinRuleView::WhitespaceOnly(WhitespaceOnly::finalize_spec(m).0),
                WhitespaceOnly::finalize_spec(m).1,
            ),
        }
    }

    open spec fn diff_start_spec(m: Self::V, commit: Commit) -> Self::V {
        match m {
            BuiltinRuleView::Fixup(m) => BuiltinRuleView::Fixup(Fixup::diff_start_spec(m, commit)),
            BuiltinRuleView::SubjectLineLength(m) => {
                BuiltinRuleView::SubjectLineLength(SubjectLineLength::diff_start_spec(m, commit))
            },
            BuiltinRuleView::NonUnicode(m) => {
                BuiltinRuleView::NonUnicode(NonUnicode::diff_start_spec(m, commit))
            },
            BuiltinRuleView::EmptyCommit(m) => {
                BuiltinRuleView::EmptyCommit(EmptyCommit::diff_start_spec(m, commit))
            },
            BuiltinRuleView::WhitespaceOnly(m) => {
                BuiltinRuleView::WhitespaceOnly(WhitespaceOnly::diff_start_spec(m, commit))
            },
        }
    }

    open spec fn diff_change_spec(m: Self::V, commit: Commit, change: TreeChange) -> (
        Self::V,
        DiffAction,
    ) {
        match m {
            BuiltinRuleView::Fixup(m) => (
                BuiltinRuleView::Fixup(Fixup::diff_change_spec(m, commit, change).0),
                Fixup::diff_change_spec(m, commit, change).1,
            ),
            BuiltinRuleView::SubjectLineLength(m) => (
                BuiltinRuleView::SubjectLineLength(
                    SubjectLineLength::diff_change_spec(m, commit, change).0,
                ),
                SubjectLineLength::diff_change_spec(m, commit, change).1,
            ),
            BuiltinRuleView::NonUnicode(m) => (
                BuiltinRuleView::NonUnicode(NonUnicode::diff_change_spec(m, commit, change).0),
                NonUnicode::diff_change_spec(m, commit, change).1,
            ),
            BuiltinRuleView::EmptyCommit(m) => (
                BuiltinRuleView::EmptyCommit(EmptyCommit::diff_change_spec(m, commit, change).0),
                EmptyCommit::diff_change_spec(m, commit, change).1,
            ),
            BuiltinRuleView::WhitespaceOnly(m) => (
                BuiltinRuleView::WhitespaceOnly(
                    WhitespaceOnly::diff_change_spec(m, commit, change).0,
                ),
                WhitespaceOnly::diff_change_spec(m, commit, change).1,
            ),
        }
    }

    open spec fn diff_end_spec(m: Self::V, commit: Commit) -> (Self::V, Seq<Achievement>) {
        match m {
            BuiltinRuleView::Fixup(m) => (
                BuiltinRuleView::Fixup(Fixup::diff_end_spec(m, commit).0),
                Fixup::diff_end_spec(m, commit).1,
            ),
            BuiltinRuleView::SubjectLineLength(m) => (
                BuiltinRuleView::SubjectLineLength(SubjectLineLength::diff_end_spec(m, commit).0),
                SubjectLineLength::diff_end_spec(m, commit).1,
            ),
            BuiltinRuleView::NonUnicode(m) => (
                BuiltinRuleView::NonUnicode(NonUnicode::diff_end_spec(m, commit).0),
                NonUnicode::diff_end_spec(m, commit).1,
            ),
            BuiltinRuleView::EmptyCommit(m) => (
                BuiltinRuleView::EmptyCommit(EmptyCommit::diff_end_spec(m, commit).0),
                EmptyCommit::diff_end_spec(m, commit).1,
            ),
            BuiltinRuleView::WhitespaceOnly(m) => (
                BuiltinRuleView::WhitespaceOnly(WhitespaceOnly::diff_end_spec(m, commit).0),
                WhitespaceOnly::diff_end_spec(m, commit).1,
            ),
        }
    }

    proof fn lemma_with_descriptors(
        m: Self::V,
        a: Seq<AchievementDescriptor>,
        b: Seq<AchievementDescriptor>,
    ) {
        match m {
            BuiltinRuleView::Fixup(m) => Fixup::lemma_with_descriptors(m, a, b),
            BuiltinRuleView::SubjectLineLength(m) => {
                SubjectLineLength::lemma_with_descriptors(m, a, b)
            },
            BuiltinRuleView::NonUnicode(m) => NonUnicode::lemma_with_descriptors(m, a, b),
            BuiltinRuleView::EmptyCommit(m) => EmptyCommit::lemma_with_descriptors(m, a, b),
            BuiltinRuleView::WhitespaceOnly(m) => WhitespaceOnly::lemma_with_descriptors(m, a, b),
        }
    }

    proof fn lemma_descriptors_stay(
        m: Self::V,
        commit: Commit,
        change: TreeChange,
        cache: EntryCacheView,
    ) {
        match m {
            BuiltinRuleView::Fixup(m) => Fixup::lemma_descriptors_stay(m, commit, change, cache),
            BuiltinRuleView::SubjectLineLength(m) => {
                SubjectLineLength::lemma_descriptors_stay(m, commit, change, cache)
            },
            BuiltinRuleView::NonUnicode(m) => {
                NonUnicode::lemma_descriptors_stay(m, commit, change, cache)
            },
            BuiltinRuleView::EmptyCommit(m) => {
                EmptyCommit::lemma_descriptors_stay(m, commit, change, cache)
            },
            BuiltinRuleView::WhitespaceOnly(m) => {
                WhitespaceOnly::lemma_descriptors_stay(m, commit, change, cache)
            },
        }
    }

    fn get_descriptors(&self) -> (out: &[AchievementDescriptor]) {
        match self {
            BuiltinRule::Fixup(rule) => rule.get_descriptors(),
            BuiltinRule::SubjectLineLength(rule) => rule.get_descriptors(),
            BuiltinRule::NonUnicode(rule) => rule.get_descriptors(),
            BuiltinRule::EmptyCommit(rule) => rule.get_descriptors(),
            BuiltinRule::WhitespaceOnly(rule) => rule.get_descriptors(),
        }
    }

    fn get_descriptors_mut(&mut self) -> (out: &mut [AchievementDescriptor]) {
        match self {
            BuiltinRule::Fixup(rule) => rule.get_descriptors_mut(),
            BuiltinRule::SubjectLineLength(rule) => rule.get_descriptors_mut(),
            BuiltinRule::NonUnicode(rule) => rule.get_descriptors_mut(),
            BuiltinRule::EmptyCommit(rule) => rule.get_descriptors_mut(),
            BuiltinRule::WhitespaceOnly(rule) => rule.get_descriptors_mut(),
        }
    }

    fn init_cache(&mut self, cache: &EntryCache) {
        match self {
            BuiltinRule::Fixup(rule) => rule.init_cache(cache),
            BuiltinRule::SubjectLineLength(rule) => rule.init_cache(cache),
            BuiltinRule::NonUnicode(rule) => rule.init_cache(cache),
            BuiltinRule::EmptyCommit(rule) => rule.init_cache(cache),
            BuiltinRule::WhitespaceOnly(rule) => rule.init_cache(cache),
        }
    }

    fn fini_cache(&self, cache: &mut EntryCache) {
        match self {
            BuiltinRule::Fixup(rule) => rule.fini_cache(cache),
            BuiltinRule::SubjectLineLength(rule) => rule.fini_cache(cache),
            BuiltinRule::NonUnicode(rule) => rule.fini_cache(cache),
            BuiltinRule::EmptyCommit(rule) => rule.fini_cache(cache),
            BuiltinRule::WhitespaceOnly(rule) => rule.fini_cache(cache),
        }
    }

    fn process(&mut self, commit: &Commit) -> (out: Vec<Achievement>) {
        match self {
            BuiltinRule::Fixup(rule) => rule.process(commit),
            BuiltinRule::SubjectLineLength(rule) => rule.process(commit),
            BuiltinRule::NonUnicode(rule) => rule.process(commit),
            BuiltinRule::EmptyCommit(rule) => rule.process(commit),
            BuiltinRule::WhitespaceOnly(rule) => rule.process(commit),
        }
    }

    fn finalize(&mut self) -> (out: Vec<Achievement>) {
        match self {
            BuiltinRule::Fixup(rule) => rule.finalize(),
            BuiltinRule::SubjectLineLength(rule) => rule.finalize(),
            BuiltinRule::NonUnicode(rule) => rule.finalize(),
            BuiltinRule::EmptyCommit(rule) => rule.finalize(),
            BuiltinRule::WhitespaceOnly(rule) => rule.finalize(),
        }
    }

    fn is_interested_in_diffs(&self) -> (r: bool) {
        match self {
            BuiltinRule::Fixup(rule) => rule.is_interested_in_diffs(),
            BuiltinRule::SubjectLineLength(rule) => rule.is_interested_in_diffs(),
            BuiltinRule::NonUnicode(rule) => rule.is_interested_in_diffs(),
            BuiltinRule::EmptyCommit(rule) => rule.is_interested_in_diffs(),
            BuiltinRule::WhitespaceOnly(rule) => rule.is_interested_in_diffs(),
        }
    }

    fn on_diff_start(&mut self, commit: &Commit) {
        match self {
            BuiltinRule::Fixup(rule) => rule.on_diff_start(commit),
            BuiltinRule::SubjectLineLength(rule) => rule.on_diff_start(commit),
            BuiltinRule::NonUnicode(rule) => rule.on_diff_start(commit),
            BuiltinRule::EmptyCommit(rule) => rule.on_diff_start(commit),
            BuiltinRule::WhitespaceOnly(rule) => rule.on_diff_start(commit),
        }
    }

    fn on_diff_change(&mut self, commit: &Commit, change: &TreeChange) -> (out: Result<
        DiffAction,
        RuleError,
    >)
        ensures
            out is Ok,
    {
        match self {
            BuiltinRule::Fixup(rule) => rule.on_diff_change(commit, change),
            BuiltinRule::SubjectLineLength(rule) => rule.on_diff_change(commit, change),
            BuiltinRule::NonUnicode(rule) => rule.on_diff_change(commit, change),
            BuiltinRule::EmptyCommit(rule) => rule.on_diff_change(commit, change),
            BuiltinRule::WhitespaceOnly(rule) => rule.on_diff_change(commit, change),
        }
    }

    fn on_diff_end(&mut self, commit: &Commit) -> (out: Vec<Achievement>) {
        match self {
            BuiltinRule::Fixup(rule) => rule.on_diff_end(commit),
            BuiltinRule::SubjectLineLength(rule) => rule.on_diff_end(commit),
            BuiltinRule::NonUnicode(rule) => rule.on_diff_end(commit),
            BuiltinRule::EmptyCommit(rule) => rule.on_diff_end(commit),
            BuiltinRule::WhitespaceOnly(rule) => rule.on_diff_end(commit),
        }
    }
}

} // verus!
