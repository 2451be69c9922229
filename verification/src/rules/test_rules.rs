//! Simple rules to try the engine with.
use vstd::prelude::*;

use crate::achievement::{
    grant_under, granted_under, Achievement, AchievementDescriptor, DiffAction, Rule, RuleError,
};
use crate::cache::{EntryCache, EntryCacheView};
use crate::git::{null_object_id, Commit, CommitId, ObjectId, TreeChange};

verus! {

/// A rule that never grants anything.
pub struct AlwaysFail {
    pub desc: Vec<AchievementDescriptor>,
}

impl View for AlwaysFail {
    type V = Seq<AchievementDescriptor>;

    open spec fn view(&self) -> Seq<AchievementDescriptor> {
        self.desc@
    }
}

/// The descriptor of [`AlwaysFail`].
pub open spec fn always_fail_descriptor() -> AchievementDescriptor {
    AchievementDescriptor {
        enabled: true,
        id: 1,
        human_id: "always-fail",
        name: "Always Fail",
        description: "This rule always fails to grant an achievement",
    }
}

impl Default for AlwaysFail {
    fn default() -> (rule: Self)
        ensures
            rule@ == seq![always_fail_descriptor()],
    {
        let mut desc: Vec<AchievementDescriptor> = Vec::new();
        desc.push(
            AchievementDescriptor {
                enabled: true,
                id: 1,
                human_id: "always-fail",
                name: "Always Fail",
                description: "This rule always fails to grant an achievement",
            },
        );
        assert(desc@ =~= seq![always_fail_descriptor()]);
        Self { desc }
    }
}

impl Rule for AlwaysFail {
    open spec fn descriptors(m: Self::V) -> Seq<AchievementDescriptor> {
        m
    }

    open spec fn with_descriptors(m: Self::V, ds: Seq<AchievementDescriptor>) -> Self::V {
        ds
    }

    open spec fn interested(m: Self::V) -> bool {
        false
    }

    open spec fn init_cache_spec(m: Self::V, cache: EntryCacheView) -> Self::V {
        m
    }

    open spec fn fini_cache_spec(m: Self::V, cache: EntryCacheView) -> EntryCacheView {
        cache
    }

    open spec fn process_spec(m: Self::V, commit: Commit) -> (Self::V, Seq<Achievement>) {
        (m, Seq::empty())
    }

    open spec fn finalize_spec(m: Self::V) -> (Self::V, Seq<Achievement>) {
        (m, Seq::empty())
    }

    open spec fn diff_start_spec(m: Self::V, commit: Commit) -> Self::V {
        m
    }

    open spec fn diff_change_spec(m: Self::V, commit: Commit, change: TreeChange) -> (
        Self::V,
        DiffAction,
    ) {
        (m, DiffAction::Cancel)
    }

    open spec fn diff_end_spec(m: Self::V, commit: Commit) -> (Self::V, Seq<Achievement>) {
        (m, Seq::empty())
    }

    proof fn lemma_with_descriptors(
        m: Self::V,
        a: Seq<AchievementDescriptor>,
        b: Seq<AchievementDescriptor>,
    ) {
    }

    proof fn lemma_descriptors_stay(
        m: Self::V,
        commit: Commit,
        change: TreeChange,
        cache: EntryCacheView,
    ) {
    }

    fn get_descriptors(&self) -> (out: &[AchievementDescriptor]) {
        self.desc.as_slice()
    }

    fn get_descriptors_mut(&mut self) -> (out: &mut [AchievementDescriptor]) {
        self.desc.as_mut_slice()
    }

    fn init_cache(&mut self, cache: &EntryCache) {
    }

    fn fini_cache(&self, cache: &mut EntryCache) {
    }

    fn process(&mut self, commit: &Commit) -> (out: Vec<Achievement>) {
        Vec::new()
    }

    fn finalize(&mut self) -> (out: Vec<Achievement>) {
        Vec::new()
    }

    fn is_interested_in_diffs(&self) -> (r: bool) {
        false
    }

    fn on_diff_start(&mut self, commit: &Commit) {
    }

    fn on_diff_change(&mut self, commit: &Commit, change: &TreeChange) -> (out: Result<
        DiffAction,
        RuleError,
    >)
        ensures
            out matches Ok(action) && action == DiffAction::Cancel,
    {
        Ok(DiffAction::Cancel)
    }

    fn on_diff_end(&mut self, commit: &Commit) -> (out: Vec<Achievement>) {
        Vec::new()
    }
}

/// A rule that grants an achievement to every commit.
pub struct ParticipationTrophy {
    pub desc: Vec<AchievementDescriptor>,
}

impl View for ParticipationTrophy {
    type V = Seq<AchievementDescriptor>;

    open spec fn view(&self) -> Seq<AchievementDescriptor> {
        self.desc@
    }
}

/// The descriptor of [`ParticipationTrophy`].
pub open spec fn participation_trophy_descriptor() -> AchievementDescriptor {
    AchievementDescriptor {
        enabled: true,
        id: 2,
        human_id: "participation-trophy",
        name: "Always succeed",
        description: "This rule always grants an achievement",
    }
}

impl Default for ParticipationTrophy {
    fn default() -> (rule: Self)
        ensures
            rule@ == seq![participation_trophy_descriptor()],
    {
        let mut desc: Vec<AchievementDescriptor> = Vec::new();
        desc.push(
            AchievementDescriptor {
                enabled: true,
                id: 2,
                human_id: "participation-trophy",
                name: "Always succeed",
                description: "This rule always grants an achievement",
            },
        );
        assert(desc@ =~= seq![participation_trophy_descriptor()]);
        Self { desc }
    }
}

impl Rule for ParticipationTrophy {
    open spec fn descriptors(m: Self::V) -> Seq<AchievementDescriptor> {
        m
    }

    open spec fn with_descriptors(m: Self::V, ds: Seq<AchievementDescriptor>) -> Self::V {
        ds
    }

    open spec fn interested(m: Self::V) -> bool {
        false
    }

    open spec fn init_cache_spec(m: Self::V, cache: EntryCacheView) -> Self::V {
        m
    }

    open spec fn fini_cache_spec(m: Self::V, cache: EntryCacheView) -> EntryCacheView {
        cache
    }

    open spec fn process_spec(m: Self::V, commit: Commit) -> (Self::V, Seq<Achievement>) {
        (m, granted_under(m, 0, commit.id))
    }

    open spec fn finalize_spec(m: Self::V) -> (Self::V, Seq<Achievement>) {
        (m, Seq::empty())
    }

    open spec fn diff_start_spec(m: Self::V, commit: Commit) -> Self::V {
        m
    }

    open spec fn diff_change_spec(m: Self::V, commit: Commit, change: TreeChange) -> (
        Self::V,
        DiffAction,
    ) {
        (m, DiffAction::Cancel)
    }

    open spec fn diff_end_spec(m: Self::V, commit: Commit) -> (Self::V, Seq<Achievement>) {
        (m, Seq::empty())
    }

    proof fn lemma_with_descriptors(
        m: Self::V,
        a: Seq<AchievementDescriptor>,
        b: Seq<AchievementDescriptor>,
    ) {
    }

    proof fn lemma_descriptors_stay(
        m: Self::V,
        commit: Commit,
        change: TreeChange,
        cache: EntryCacheView,
    ) {
    }

    fn get_descriptors(&self) -> (out: &[AchievementDescriptor]) {
        self.desc.as_slice()
    }

    fn get_descriptors_mut(&mut self) -> (out: &mut [AchievementDescriptor]) {
        self.desc.as_mut_slice()
    }

    fn init_cache(&mut self, cache: &EntryCache) {
    }

    fn fini_cache(&self, cache: &mut EntryCache) {
    }

    fn process(&mut self, commit: &Commit) -> (out: Vec<Achievement>) {
        grant_under(&self.desc, 0, commit.id)
    }

    fn finalize(&mut self) -> (out: Vec<Achievement>) {
        Vec::new()
    }

    fn is_interested_in_diffs(&self) -> (r: bool) {
        false
    }

    fn on_diff_start(&mut self, commit: &Commit) {
    }

    fn on_diff_change(&mut self, commit: &Commit, change: &TreeChange) -> (out: Result<
        DiffAction,
        RuleError,
    >)
        ensures
            out matches Ok(action) && action == DiffAction::Cancel,
    {
        Ok(DiffAction::Cancel)
    }

    fn on_diff_end(&mut self, commit: &Commit) -> (out: Vec<Achievement>) {
        Vec::new()
    }
}

/// A rule that grants one achievement when the walk has ended, whatever it
/// saw. The achievement names no commit of the walk: its commit is the id of
/// all zeros.
pub struct ParticipationTrophy2 {
    pub desc: Vec<AchievementDescriptor>,
}

impl View for ParticipationTrophy2 {
    type V = Seq<AchievementDescriptor>;

    open spec fn view(&self) -> Seq<AchievementDescriptor> {
        self.desc@
    }
}

/// The descriptor of [`ParticipationTrophy2`].
pub open spec fn participation_trophy_2_descriptor() -> AchievementDescriptor {
    AchievementDescriptor {
        enabled: true,
        id: 3,
        human_id: "participation-trophy-2",
        name: "Always succeed at finalize",
        description: "This rule always grants an achievement at finalize",
    }
}

impl Default for ParticipationTrophy2 {
    fn default() -> (rule: Self)
        ensures
            rule@ == seq![participation_trophy_2_descriptor()],
    {
        let mut desc: Vec<AchievementDescriptor> = Vec::new();
        desc.push(
            AchievementDescriptor {
                enabled: true,
                id: 3,
                human_id: "participation-trophy-2",
                name: "Always succeed at finalize",
                description: "This rule always grants an achievement at finalize",
            },
        );
        assert(desc@ =~= seq![participation_trophy_2_descriptor()]);
        Self { desc }
    }
}

impl Rule for ParticipationTrophy2 {
    open spec fn descriptors(m: Self::V) -> Seq<AchievementDescriptor> {
        m
    }

    open spec fn with_descriptors(m: Self::V, ds: Seq<AchievementDescriptor>) -> Self::V {
        ds
    }

    open spec fn interested(m: Self::V) -> bool {
        false
    }

    open spec fn init_cache_spec(m: Self::V, cache: EntryCacheView) -> Self::V {
        m
    }

    open spec fn fini_cache_spec(m: Self::V, cache: EntryCacheView) -> EntryCacheView {
        cache
    }

    open spec fn process_spec(m: Self::V, commit: Commit) -> (Self::V, Seq<Achievement>) {
        (m, Seq::empty())
    }

    open spec fn finalize_spec(m: Self::V) -> (Self::V, Seq<Achievement>) {
        (m, granted_under(m, 0, null_object_id()))
    }

    open spec fn diff_start_spec(m: Self::V, commit: Commit) -> Self::V {
        m
    }

    open spec fn diff_change_spec(m: Self::V, commit: Commit, change: TreeChange) -> (
        Self::V,
        DiffAction,
    ) {
        (m, DiffAction::Cancel)
    }

    open spec fn diff_end_spec(m: Self::V, commit: Commit) -> (Self::V, Seq<Achievement>) {
        (m, Seq::empty())
    }

    proof fn lemma_with_descriptors(
        m: Self::V,
        a: Seq<AchievementDescriptor>,
        b: Seq<AchievementDescriptor>,
    ) {
    }

    proof fn lemma_descriptors_stay(
        m: Self::V,
        commit: Commit,
        change: TreeChange,
        cache: EntryCacheView,
    ) {
    }

    fn get_descriptors(&self) -> (out: &[AchievementDescriptor]) {
        self.desc.as_slice()
    }

    fn get_descriptors_mut(&mut self) -> (out: &mut [AchievementDescriptor]) {
        self.desc.as_mut_slice()
    }

    fn init_cache(&mut self, cache: &EntryCache) {
    }

    fn fini_cache(&self, cache: &mut EntryCache) {
    }

    fn process(&mut self, commit: &Commit) -> (out: Vec<Achievement>) {
        Vec::new()
    }

    fn finalize(&mut self) -> (out: Vec<Achievement>) {
        grant_under(&self.desc, 0, ObjectId::null())
    }

    fn is_interested_in_diffs(&self) -> (r: bool) {
        false
    }

    fn on_diff_start(&mut self, commit: &Commit) {
    }

    fn on_diff_change(&mut self, commit: &Commit, change: &TreeChange) -> (out: Result<
        DiffAction,
        RuleError,
    >)
        ensures
            out matches Ok(action) && action == DiffAction::Cancel,
    {
        Ok(DiffAction::Cancel)
    }

    fn on_diff_end(&mut self, commit: &Commit) -> (out: Vec<Achievement>) {
        Vec::new()
    }
}

/// What a rule grants to `commit` under the first `n` of its descriptors:
/// one achievement for each that is enabled.
pub open spec fn granted_under_first(
    ds: Seq<AchievementDescriptor>,
    n: int,
    commit: CommitId,
) -> Seq<Achievement>
    decreases n,
{
    if n <= 0 {
        Seq::empty()
    } else {
        granted_under_first(ds, n - 1, commit) + granted_under(ds, n - 1, commit)
    }
}

/// A rule with any descriptors, which grants every commit an achievement
/// under each descriptor that is enabled.
pub struct FlexibleRule {
    pub descriptors: Vec<AchievementDescriptor>,
}

impl View for FlexibleRule {
    type V = Seq<AchievementDescriptor>;

    open spec fn view(&self) -> Seq<AchievementDescriptor> {
        self.descriptors@
    }
}

impl Rule for FlexibleRule {
    open spec fn descriptors(m: Self::V) -> Seq<AchievementDescriptor> {
        m
    }

    open spec fn with_descriptors(m: Self::V, ds: Seq<AchievementDescriptor>) -> Self::V {
        ds
    }

    open spec fn interested(m: Self::V) -> bool {
        false
    }

    open spec fn init_cache_spec(m: Self::V, cache: EntryCacheView) -> Self::V {
        m
    }

    open spec fn fini_cache_spec(m: Self::V, cache: EntryCacheView) -> EntryCacheView {
        cache
    }

    open spec fn process_spec(m: Self::V, commit: Commit) -> (Self::V, Seq<Achievement>) {
        (m, granted_under_first(m, m.len() as int, commit.id))
    }

    open spec fn finalize_spec(m: Self::V) -> (Self::V, Seq<Achievement>) {
        (m, Seq::empty())
    }

    open spec fn diff_start_spec(m: Self::V, commit: Commit) -> Self::V {
        m
    }

    open spec fn diff_change_spec(m: Self::V, commit: Commit, change: TreeChange) -> (
        Self::V,
        DiffAction,
    ) {
        (m, DiffAction::Cancel)
    }

    open spec fn diff_end_spec(m: Self::V, commit: Commit) -> (Self::V, Seq<Achievement>) {
        (m, Seq::empty())
    }

    proof fn lemma_with_descriptors(
        m: Self::V,
        a: Seq<AchievementDescriptor>,
        b: Seq<AchievementDescriptor>,
    ) {
    }

    proof fn lemma_descriptors_stay(
        m: Self::V,
        commit: Commit,
        change: TreeChange,
        cache: EntryCacheView,
    ) {
    }

    fn get_descriptors(&self) -> (out: &[AchievementDescriptor]) {
        self.descriptors.as_slice()
    }

    fn get_descriptors_mut(&mut self) -> (out: &mut [AchievementDescriptor]) {
        self.descriptors.as_mut_slice()
    }

    fn init_cache(&mut self, cache: &EntryCache) {
    }

    fn fini_cache(&self, cache: &mut EntryCache) {
    }

    fn process(&mut self, commit: &Commit) -> (out: Vec<Achievement>) {
        let mut out: Vec<Achievement> = Vec::new();
        let mut i: usize = 0;
        while i < self.descriptors.len()
            invariant
                i <= self.descriptors@.len(),
                self.descriptors == old(self).descriptors,
                out@ == granted_under_first(self.descriptors@, i as int, commit.id),
            decreases self.descriptors@.len() - i,
        {
            let mut new = grant_under(&self.descriptors, i, commit.id);
            out.append(&mut new);
            i += 1;
        }
        out
    }

    fn finalize(&mut self) -> (out: Vec<Achievement>) {
        Vec::new()
    }

    fn is_interested_in_diffs(&self) -> (r: bool) {
        false
    }

    fn on_diff_start(&mut self, commit: &Commit) {
    }

    fn on_diff_change(&mut self, commit: &Commit, change: &TreeChange) -> (out: Result<
        DiffAction,
        RuleError,
    >)
        ensures
            out matches Ok(action) && action == DiffAction::Cancel,
    {
        Ok(DiffAction::Cancel)
    }

    fn on_diff_end(&mut self, commit: &Commit) -> (out: Vec<Achievement>) {
        Vec::new()
    }
}


/// A rule that fails on every change that it is shown, and grants every
/// commit of which it was shown a change an achievement when the diff ends.
pub struct Faulty {
    pub desc: Vec<AchievementDescriptor>,
    /// How many changes the rule was shown in all.
    pub changes_seen: usize,
    /// Whether the rule was shown a change of the commit at hand.
    pub failed: bool,
}

/// The state of a [`Faulty`].
pub struct FaultyView {
    pub desc: Seq<AchievementDescriptor>,
    pub changes_seen: usize,
    pub failed: bool,
}

impl View for Faulty {
    type V = FaultyView;

    open spec fn view(&self) -> FaultyView {
        FaultyView { desc: self.desc@, changes_seen: self.changes_seen, failed: self.failed }
    }
}

/// The descriptor of [`Faulty`].
pub open spec fn faulty_descriptor() -> AchievementDescriptor {
    AchievementDescriptor {
        enabled: true,
        id: 4,
        human_id: "faulty",
        name: "Always fail at a change",
        description: "This rule fails on every change",
    }
}

impl Default for Faulty {
    fn default() -> (rule: Self)
        ensures
            rule@ == (FaultyView {
                desc: seq![faulty_descriptor()],
                changes_seen: 0,
                failed: false,
            }),
    {
        let mut desc: Vec<AchievementDescriptor> = Vec::new();
        desc.push(
            AchievementDescriptor {
                enabled: true,
                id: 4,
                human_id: "faulty",
                name: "Always fail at a change",
                description: "This rule fails on every change",
            },
        );
        assert(desc@ =~= seq![faulty_descriptor()]);
        Self { desc, changes_seen: 0, failed: false }
    }
}

impl Rule for Faulty {
    open spec fn descriptors(m: Self::V) -> Seq<AchievementDescriptor> {
        m.desc
    }

    open spec fn with_descriptors(m: Self::V, ds: Seq<AchievementDescriptor>) -> Self::V {
        FaultyView { desc: ds, ..m }
    }

    open spec fn interested(m: Self::V) -> bool {
        true
    }

    open spec fn init_cache_spec(m: Self::V, cache: EntryCacheView) -> Self::V {
        m
    }

    open spec fn fini_cache_spec(m: Self::V, cache: EntryCacheView) -> EntryCacheView {
        cache
    }

    open spec fn process_spec(m: Self::V, commit: Commit) -> (Self::V, Seq<Achievement>) {
        (m, Seq::empty())
    }

    open spec fn finalize_spec(m: Self::V) -> (Self::V, Seq<Achievement>) {
        (m, Seq::empty())
    }

    open spec fn diff_start_spec(m: Self::V, commit: Commit) -> Self::V {
        FaultyView { failed: false, ..m }
    }

    open spec fn diff_change_spec(m: Self::V, commit: Commit, change: TreeChange) -> (
        Self::V,
        DiffAction,
    ) {
        (
            FaultyView {
                changes_seen: if m.changes_seen < usize::MAX {
                    (m.changes_seen + 1) as usize
                } else {
                    m.changes_seen
                },
                failed: true,
                ..m
            },
            DiffAction::Cancel,
        )
    }

    open spec fn diff_end_spec(m: Self::V, commit: Commit) -> (Self::V, Seq<Achievement>) {
        (
            m,
            if m.failed {
                granted_under(m.desc, 0, commit.id)
            } else {
                Seq::empty()
            },
        )
    }

    proof fn lemma_with_descriptors(
        m: Self::V,
        a: Seq<AchievementDescriptor>,
        b: Seq<AchievementDescriptor>,
    ) {
    }

    proof fn lemma_descriptors_stay(
        m: Self::V,
        commit: Commit,
        change: TreeChange,
        cache: EntryCacheView,
    ) {
    }

    fn get_descriptors(&self) -> (out: &[AchievementDescriptor]) {
        self.desc.as_slice()
    }

    fn get_descriptors_mut(&mut self) -> (out: &mut [AchievementDescriptor]) {
        self.desc.as_mut_slice()
    }

    fn init_cache(&mut self, cache: &EntryCache) {
    }

    fn fini_cache(&self, cache: &mut EntryCache) {
    }

    fn process(&mut self, commit: &Commit) -> (out: Vec<Achievement>) {
        Vec::new()
    }

    fn finalize(&mut self) -> (out: Vec<Achievement>) {
        Vec::new()
    }

    fn is_interested_in_diffs(&self) -> (r: bool) {
        true
    }

    fn on_diff_start(&mut self, commit: &Commit) {
        self.failed = false;
    }

    fn on_diff_change(&mut self, commit: &Commit, change: &TreeChange) -> (out: Result<
        DiffAction,
        RuleError,
    >)
        ensures
            out matches Err(e) && e.message@ == "this rule fails on every change"@,
    {
        if self.changes_seen < usize::MAX {
            self.changes_seen += 1;
        }
        self.failed = true;
        Err(RuleError { message: "this rule fails on every change".to_owned() })
    }

    fn on_diff_end(&mut self, commit: &Commit) -> (out: Vec<Achievement>) {
        if self.failed {
            grant_under(&self.desc, 0, commit.id)
        } else {
            Vec::new()
        }
    }
}

/// Any one of the rules of this file, so that several kinds can run together.
pub enum TestRule {
    AlwaysFail(AlwaysFail),
    ParticipationTrophy(ParticipationTrophy),
    ParticipationTrophy2(ParticipationTrophy2),
    Flexible(FlexibleRule),
    Faulty(Faulty),
}

/// The state of a [`TestRule`].
pub enum TestRuleView {
    AlwaysFail(Seq<AchievementDescriptor>),
    ParticipationTrophy(Seq<AchievementDescriptor>),
    ParticipationTrophy2(Seq<AchievementDescriptor>),
    Flexible(Seq<AchievementDescriptor>),
    Faulty(FaultyView),
}

impl View for TestRule {
    type V = TestRuleView;

    open spec fn view(&self) -> TestRuleView {
        match self {
            TestRule::AlwaysFail(rule) => TestRuleView::AlwaysFail(rule@),
            TestRule::ParticipationTrophy(rule) => TestRuleView::ParticipationTrophy(rule@),
            TestRule::ParticipationTrophy2(rule) => TestRuleView::ParticipationTrophy2(rule@),
            TestRule::Flexible(rule) => TestRuleView::Flexible(rule@),
            TestRule::Faulty(rule) => TestRuleView::Faulty(rule@),
        }
    }
}

impl Rule for TestRule {
    open spec fn descriptors(m: Self::V) -> Seq<AchievementDescriptor> {
        match m {
            TestRuleView::AlwaysFail(m) => AlwaysFail::descriptors(m),
            TestRuleView::ParticipationTrophy(m) => ParticipationTrophy::descriptors(m),
            TestRuleView::ParticipationTrophy2(m) => ParticipationTrophy2::descriptors(m),
            TestRuleView::Flexible(m) => FlexibleRule::descriptors(m),
            TestRuleView::Faulty(m) => Faulty::descriptors(m),
        }
    }

    open spec fn with_descriptors(m: Self::V, ds: Seq<AchievementDescriptor>) -> Self::V {
        match m {
            TestRuleView::AlwaysFail(m) => {
                TestRuleView::AlwaysFail(AlwaysFail::with_descriptors(m, ds))
            },
            TestRuleView::ParticipationTrophy(m) => {
                TestRuleView::ParticipationTrophy(ParticipationTrophy::with_descriptors(m, ds))
            },
            TestRuleView::ParticipationTrophy2(m) => {
                TestRuleView::ParticipationTrophy2(ParticipationTrophy2::with_descriptors(m, ds))
            },
            TestRuleView::Flexible(m) => {
                TestRuleView::Flexible(FlexibleRule::with_descriptors(m, ds))
            },
            TestRuleView::Faulty(m) => TestRuleView::Faulty(Faulty::with_descriptors(m, ds)),
        }
    }

    open spec fn interested(m: Self::V) -> bool {
        match m {
            TestRuleView::AlwaysFail(m) => AlwaysFail::interested(m),
            TestRuleView::ParticipationTrophy(m) => ParticipationTrophy::interested(m),
            TestRuleView::ParticipationTrophy2(m) => ParticipationTrophy2::interested(m),
            TestRuleView::Flexible(m) => FlexibleRule::interested(m),
            TestRuleView::Faulty(m) => Faulty::interested(m),
        }
    }

    open spec fn init_cache_spec(m: Self::V, cache: EntryCacheView) -> Self::V {
        match m {
            TestRuleView::AlwaysFail(m) => {
                TestRuleView::AlwaysFail(AlwaysFail::init_cache_spec(m, cache))
            },
            TestRuleView::ParticipationTrophy(m) => {
                TestRuleView::ParticipationTrophy(ParticipationTrophy::init_cache_spec(m, cache))
            },
            TestRuleView::ParticipationTrophy2(m) => {
                TestRuleView::ParticipationTrophy2(ParticipationTrophy2::init_cache_spec(m, cache))
            },
            TestRuleView::Flexible(m) => {
                TestRuleView::Flexible(FlexibleRule::init_cache_spec(m, cache))
            },
            TestRuleView::Faulty(m) => TestRuleView::Faulty(Faulty::init_cache_spec(m, cache)),
        }
    }

    open spec fn fini_cache_spec(m: Self::V, cache: EntryCacheView) -> EntryCacheView {
        match m {
            TestRuleView::AlwaysFail(m) => AlwaysFail::fini_cache_spec(m, cache),
            TestRuleView::ParticipationTrophy(m) => ParticipationTrophy::fini_cache_spec(m, cache),
            TestRuleView::ParticipationTrophy2(m) => {
                ParticipationTrophy2::fini_cache_spec(m, cache)
            },
            TestRuleView::Flexible(m) => FlexibleRule::fini_cache_spec(m, cache),
            TestRuleView::Faulty(m) => Faulty::fini_cache_spec(m, cache),
        }
    }

    open spec fn process_spec(m: Self::V, commit: Commit) -> (Self::V, Seq<Achievement>) {
        match m {
            TestRuleView::AlwaysFail(m) => (
                TestRuleView::AlwaysFail(AlwaysFail::process_spec(m, commit).0),
                AlwaysFail::process_spec(m, commit).1,
            ),
            TestRuleView::ParticipationTrophy(m) => (
                TestRuleView::ParticipationTrophy(ParticipationTrophy::process_spec(m, commit).0),
                ParticipationTrophy::process_spec(m, commit).1,
            ),
            TestRuleView::ParticipationTrophy2(m) => (
                TestRuleView::ParticipationTrophy2(ParticipationTrophy2::process_spec(m, commit).0),
                ParticipationTrophy2::process_spec(m, commit).1,
            ),
            TestRuleView::Flexible(m) => (
                TestRuleView::Flexible(FlexibleRule::process_spec(m, commit).0),
                FlexibleRule::process_spec(m, commit).1,
            ),
            TestRuleView::Faulty(m) => (
                TestRuleView::Faulty(Faulty::process_spec(m, commit).0),
                Faulty::process_spec(m, commit).1,
            ),
        }
    }

    open spec fn finalize_spec(m: Self::V) -> (Self::V, Seq<Achievement>) {
        match m {
            TestRuleView::AlwaysFail(m) => (
                TestRuleView::AlwaysFail(AlwaysFail::finalize_spec(m).0),
                AlwaysFail::finalize_spec(m).1,
            ),
            TestRuleView::ParticipationTrophy(m) => (
                TestRuleView::ParticipationTrophy(ParticipationTrophy::finalize_spec(m).0),
                ParticipationTrophy::finalize_spec(m).1,
            ),
            TestRuleView::ParticipationTrophy2(m) => (
                TestRuleView::ParticipationTrophy2(ParticipationTrophy2::finalize_spec(m).0),
                ParticipationTrophy2::finalize_spec(m).1,
            ),
            TestRuleView::Flexible(m) => (
                TestRuleView::Flexible(FlexibleRule::finalize_spec(m).0),
                FlexibleRule::finalize_spec(m).1,
            ),
            TestRuleView::Faulty(m) => (
                TestRuleView::Faulty(Faulty::finalize_spec(m).0),
                Faulty::finalize_spec(m).1,
            ),
        }
    }

    open spec fn diff_start_spec(m: Self::V, commit: Commit) -> Self::V {
        match m {
            TestRuleView::AlwaysFail(m) => {
                TestRuleView::AlwaysFail(AlwaysFail::diff_start_spec(m, commit))
            },
            TestRuleView::ParticipationTrophy(m) => {
                TestRuleView::ParticipationTrophy(ParticipationTrophy::diff_start_spec(m, commit))
            },
            TestRuleView::ParticipationTrophy2(m) => {
                TestRuleView::ParticipationTrophy2(ParticipationTrophy2::diff_start_spec(m, commit))
            },
            TestRuleView::Flexible(m) => {
                TestRuleView::Flexible(FlexibleRule::diff_start_spec(m, commit))
            },
            TestRuleView::Faulty(m) => TestRuleView::Faulty(Faulty::diff_start_spec(m, commit)),
        }
    }

    open spec fn diff_change_spec(m: Self::V, commit: Commit, change: TreeChange) -> (
        Self::V,
        DiffAction,
    ) {
        match m {
            TestRuleView::AlwaysFail(m) => (
                TestRuleView::AlwaysFail(AlwaysFail::diff_change_spec(m, commit, change).0),
                AlwaysFail::diff_change_spec(m, commit, change).1,
            ),
            TestRuleView::ParticipationTrophy(m) => (
                TestRuleView::ParticipationTrophy(
                    ParticipationTrophy::diff_change_spec(m, commit, change).0,
                ),
                ParticipationTrophy::diff_change_spec(m, commit, change).1,
            ),
            TestRuleView::ParticipationTrophy2(m) => (
                TestRuleView::ParticipationTrophy2(
                    ParticipationTrophy2::diff_change_spec(m, commit, change).0,
                ),
                ParticipationTrophy2::diff_change_spec(m, commit, change).1,
            ),
            TestRuleView::Flexible(m) => (
                TestRuleView::Flexible(FlexibleRule::diff_change_spec(m, commit, change).0),
                FlexibleRule::diff_change_spec(m, commit, change).1,
            ),
            TestRuleView::Faulty(m) => (
                TestRuleView::Faulty(Faulty::diff_change_spec(m, commit, change).0),
                Faulty::diff_change_spec(m, commit, change).1,
            ),
        }
    }

    open spec fn diff_end_spec(m: Self::V, commit: Commit) -> (Self::V, Seq<Achievement>) {
        match m {
            TestRuleView::AlwaysFail(m) => (
                TestRuleView::AlwaysFail(AlwaysFail::diff_end_spec(m, commit).0),
                AlwaysFail::diff_end_spec(m, commit).1,
            ),
            TestRuleView::ParticipationTrophy(m) => (
                TestRuleView::ParticipationTrophy(ParticipationTrophy::diff_end_spec(m, commit).0),
                ParticipationTrophy::diff_end_spec(m, commit).1,
            ),
            TestRuleView::ParticipationTrophy2(m) => (
                TestRuleView::ParticipationTrophy2(
                    ParticipationTrophy2::diff_end_spec(m, commit).0,
                ),
                ParticipationTrophy2::diff_end_spec(m, commit).1,
            ),
            TestRuleView::Flexible(m) => (
                TestRuleView::Flexible(FlexibleRule::diff_end_spec(m, commit).0),
                FlexibleRule::diff_end_spec(m, commit).1,
            ),
            TestRuleView::Faulty(m) => (
                TestRuleView::Faulty(Faulty::diff_end_spec(m, commit).0),
                Faulty::diff_end_spec(m, commit).1,
            ),
        }
    }

    proof fn lemma_with_descriptors(
        m: Self::V,
        a: Seq<AchievementDescriptor>,
        b: Seq<AchievementDescriptor>,
    ) {
        match m {
            TestRuleView::AlwaysFail(m) => AlwaysFail::lemma_with_descriptors(m, a, b),
            TestRuleView::ParticipationTrophy(m) => {
                ParticipationTrophy::lemma_with_descriptors(m, a, b)
            },
            TestRuleView::ParticipationTrophy2(m) => {
                ParticipationTrophy2::lemma_with_descriptors(m, a, b)
            },
            TestRuleView::Flexible(m) => FlexibleRule::lemma_with_descriptors(m, a, b),
            TestRuleView::Faulty(m) => Faulty::lemma_with_descriptors(m, a, b),
        }
    }

    proof fn lemma_descriptors_stay(
        m: Self::V,
        commit: Commit,
        change: TreeChange,
        cache: EntryCacheView,
    ) {
        match m {
            TestRuleView::AlwaysFail(m) => {
                AlwaysFail::lemma_descriptors_stay(m, commit, change, cache)
            },
            TestRuleView::ParticipationTrophy(m) => {
                ParticipationTrophy::lemma_descriptors_stay(m, commit, change, cache)
            },
            TestRuleView::ParticipationTrophy2(m) => {
                ParticipationTrophy2::lemma_descriptors_stay(m, commit, change, cache)
            },
            TestRuleView::Flexible(m) => {
                FlexibleRule::lemma_descriptors_stay(m, commit, change, cache)
            },
            TestRuleView::Faulty(m) => Faulty::lemma_descriptors_stay(m, commit, change, cache),
        }
    }

    fn get_descriptors(&self) -> (out: &[AchievementDescriptor]) {
        match self {
            TestRule::AlwaysFail(rule) => rule.get_descriptors(),
            TestRule::ParticipationTrophy(rule) => rule.get_descriptors(),
            TestRule::ParticipationTrophy2(rule) => rule.get_descriptors(),
            TestRule::Flexible(rule) => rule.get_descriptors(),
            TestRule::Faulty(rule) => rule.get_descriptors(),
        }
    }

    fn get_descriptors_mut(&mut self) -> (out: &mut [AchievementDescriptor]) {
        match self {
            TestRule::AlwaysFail(rule) => rule.get_descriptors_mut(),
            TestRule::ParticipationTrophy(rule) => rule.get_descriptors_mut(),
            TestRule::ParticipationTrophy2(rule) => rule.get_descriptors_mut(),
            TestRule::Flexible(rule) => rule.get_descriptors_mut(),
            TestRule::Faulty(rule) => rule.get_descriptors_mut(),
        }
    }

    fn init_cache(&mut self, cache: &EntryCache) {
        match self {
            TestRule::AlwaysFail(rule) => rule.init_cache(cache),
            TestRule::ParticipationTrophy(rule) => rule.init_cache(cache),
            TestRule::ParticipationTrophy2(rule) => rule.init_cache(cache),
            TestRule::Flexible(rule) => rule.init_cache(cache),
            TestRule::Faulty(rule) => rule.init_cache(cache),
        }
    }

    fn fini_cache(&self, cache: &mut EntryCache) {
        match self {
            TestRule::AlwaysFail(rule) => rule.fini_cache(cache),
            TestRule::ParticipationTrophy(rule) => rule.fini_cache(cache),
            TestRule::ParticipationTrophy2(rule) => rule.fini_cache(cache),
            TestRule::Flexible(rule) => rule.fini_cache(cache),
            TestRule::Faulty(rule) => rule.fini_cache(cache),
        }
    }

    fn process(&mut self, commit: &Commit) -> (out: Vec<Achievement>) {
        match self {
            TestRule::AlwaysFail(rule) => rule.process(commit),
            TestRule::ParticipationTrophy(rule) => rule.process(commit),
            TestRule::ParticipationTrophy2(rule) => rule.process(commit),
            TestRule::Flexible(rule) => rule.process(commit),
            TestRule::Faulty(rule) => rule.process(commit),
        }
    }

    fn finalize(&mut self) -> (out: Vec<Achievement>) {
        match self {
            TestRule::AlwaysFail(rule) => rule.finalize(),
            TestRule::ParticipationTrophy(rule) => rule.finalize(),
            TestRule::ParticipationTrophy2(rule) => rule.finalize(),
            TestRule::Flexible(rule) => rule.finalize(),
            TestRule::Faulty(rule) => rule.finalize(),
        }
    }

    fn is_interested_in_diffs(&self) -> (r: bool) {
        match self {
            TestRule::AlwaysFail(rule) => rule.is_interested_in_diffs(),
            TestRule::ParticipationTrophy(rule) => rule.is_interested_in_diffs(),
            TestRule::ParticipationTrophy2(rule) => rule.is_interested_in_diffs(),
            TestRule::Flexible(rule) => rule.is_interested_in_diffs(),
            TestRule::Faulty(rule) => rule.is_interested_in_diffs(),
        }
    }

    fn on_diff_start(&mut self, commit: &Commit) {
        match self {
            TestRule::AlwaysFail(rule) => rule.on_diff_start(commit),
            TestRule::ParticipationTrophy(rule) => rule.on_diff_start(commit),
            TestRule::ParticipationTrophy2(rule) => rule.on_diff_start(commit),
            TestRule::Flexible(rule) => rule.on_diff_start(commit),
            TestRule::Faulty(rule) => rule.on_diff_start(commit),
        }
    }

    fn on_diff_change(&mut self, commit: &Commit, change: &TreeChange) -> (out: Result<
        DiffAction,
        RuleError,
    >)
        ensures
            out is Err <==> *old(self) is Faulty,
    {
        match self {
            TestRule::AlwaysFail(rule) => rule.on_diff_change(commit, change),
            TestRule::ParticipationTrophy(rule) => rule.on_diff_change(commit, change),
            TestRule::ParticipationTrophy2(rule) => rule.on_diff_change(commit, change),
            TestRule::Flexible(rule) => rule.on_diff_change(commit, change),
            TestRule::Faulty(rule) => rule.on_diff_change(commit, change),
        }
    }

    fn on_diff_end(&mut self, commit: &Commit) -> (out: Vec<Achievement>) {
        match self {
            TestRule::AlwaysFail(rule) => rule.on_diff_end(commit),
            TestRule::ParticipationTrophy(rule) => rule.on_diff_end(commit),
            TestRule::ParticipationTrophy2(rule) => rule.on_diff_end(commit),
            TestRule::Flexible(rule) => rule.on_diff_end(commit),
            TestRule::Faulty(rule) => rule.on_diff_end(commit),
        }
    }
}

} // verus!
