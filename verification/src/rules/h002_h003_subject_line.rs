//! The shortest and the longest subject line of a history.
use vstd::prelude::*;

use crate::achievement::{
    grant_under, granted_under, Achievement, AchievementDescriptor, DiffAction, Rule, RuleError,
};
use crate::cache::{EntryCache, EntryCacheView};
use crate::config::{H002Config, H003Config, RulesConfig};
use crate::git::{Commit, CommitId, TreeChange};

verus! {

/// Finds the commit with the shortest subject line and the one with the
/// longest, and grants each an achievement when the walk has ended.
///
/// Lengths are counted in bytes. Only a subject line below the threshold of
/// the shortest, or above that of the longest, counts; of two of the same
/// length the newer one wins.
pub struct SubjectLineLength {
    /// The descriptor of the shortest subject line, then that of the
    /// longest.
    pub descriptors: Vec<AchievementDescriptor>,
    pub h2_config: H002Config,
    pub h3_config: H003Config,
    pub shortest_length: usize,
    pub longest_length: usize,
    pub shortest_so_far: Option<CommitId>,
    pub longest_so_far: Option<CommitId>,
}

/// The state of a [`SubjectLineLength`].
pub struct SubjectLineLengthView {
    pub descriptors: Seq<AchievementDescriptor>,
    pub h2_config: H002Config,
    pub h3_config: H003Config,
    pub shortest_length: usize,
    pub longest_length: usize,
    pub shortest_so_far: Option<CommitId>,
    pub longest_so_far: Option<CommitId>,
}

impl View for SubjectLineLength {
    type V = SubjectLineLengthView;

    open spec fn view(&self) -> SubjectLineLengthView {
        SubjectLineLengthView {
            descriptors: self.descriptors@,
            h2_config: self.h2_config,
            h3_config: self.h3_config,
            shortest_length: self.shortest_length,
            longest_length: self.longest_length,
            shortest_so_far: self.shortest_so_far,
            longest_so_far: self.longest_so_far,
        }
    }
}

/// The descriptor of the shortest subject line.
pub open spec fn shortest_subject_line_descriptor() -> AchievementDescriptor {
    AchievementDescriptor {
        enabled: true,
        id: 2,
        human_id: "shortest-subject-line",
        name: "Brevity is the soul of wit",
        description: "The shortest subject line",
    }
}

/// The descriptor of the longest subject line.
pub open spec fn longest_subject_line_descriptor() -> AchievementDescriptor {
    AchievementDescriptor {
        enabled: true,
        id: 3,
        human_id: "longest-subject-line",
        name: "50 characters was more of a suggestion anyways",
        description: "The longest subject line",
    }
}

/// The rule as it is made, with the given thresholds.
pub open spec fn fresh_subject_line_length(
    h2: H002Config,
    h3: H003Config,
) -> SubjectLineLengthView {
    SubjectLineLengthView {
        descriptors: seq![shortest_subject_line_descriptor(), longest_subject_line_descriptor()],
        h2_config: h2,
        h3_config: h3,
        shortest_length: usize::MAX,
        longest_length: 0,
        shortest_so_far: None,
        longest_so_far: None,
    }
}

/// The thresholds that a configuration gives, or those that hold without one.
pub open spec fn thresholds_of(config: RulesConfig) -> (H002Config, H003Config) {
    (
        match config.h2_shortest_subject_line {
            Some(h2) => h2,
            None => H002Config { length_threshold: 10 },
        },
        match config.h3_longest_subject_line {
            Some(h3) => h3,
            None => H003Config { length_threshold: 72 },
        },
    )
}

impl SubjectLineLength {
    /// The rule with the given thresholds.
    pub fn with_thresholds(h2_config: H002Config, h3_config: H003Config) -> (rule: Self)
        ensures
            rule@ == fresh_subject_line_length(h2_config, h3_config),
    {
        let mut descriptors: Vec<AchievementDescriptor> = Vec::new();
        descriptors.push(
            AchievementDescriptor {
                enabled: true,
                id: 2,
                human_id: "shortest-subject-line",
                name: "Brevity is the soul of wit",
                description: "The shortest subject line",
            },
        );
        descriptors.push(
            AchievementDescriptor {
                enabled: true,
                id: 3,
                human_id: "longest-subject-line",
                name: "50 characters was more of a suggestion anyways",
                description: "The longest subject line",
            },
        );
        assert(descriptors@ =~= seq![
            shortest_subject_line_descriptor(),
            longest_subject_line_descriptor(),
        ]);
        Self {
            descriptors,
            h2_config,
            h3_config,
            shortest_length: usize::MAX,
            longest_length: usize::MIN,
            shortest_so_far: None,
            longest_so_far: None,
        }
    }
}

impl Default for SubjectLineLength {
    fn default() -> (rule: Self)
        ensures
            rule@ == fresh_subject_line_length(
                H002Config { length_threshold: 10 },
                H003Config { length_threshold: 72 },
            ),
    {
        SubjectLineLength::with_thresholds(H002Config::default(), H003Config::default())
    }
}

/// Makes the rule with the thresholds that `config` gives.
pub fn subject_line_factory(config: &RulesConfig) -> (rule: SubjectLineLength)
    ensures
        rule@ == fresh_subject_line_length(thresholds_of(*config).0, thresholds_of(*config).1),
{
    let h2 = match config.h2_shortest_subject_line {
        Some(h2) => h2,
        None => H002Config::default(),
    };
    let h3 = match config.h3_longest_subject_line {
        Some(h3) => h3,
        None => H003Config::default(),
    };
    SubjectLineLength::with_thresholds(h2, h3)
}

/// The length of the subject line of a commit: the number of bytes of its
/// title.
pub fn subject_length(commit: &Commit) -> (length: usize)
    ensures
        length == commit.message_title@.len(),
{
    commit.message_title.len()
}

impl Rule for SubjectLineLength {
    open spec fn descriptors(m: Self::V) -> Seq<AchievementDescriptor> {
        m.descriptors
    }

    open spec fn with_descriptors(m: Self::V, ds: Seq<AchievementDescriptor>) -> Self::V {
        SubjectLineLengthView { descriptors: ds, ..m }
    }

    open spec fn interested(m: Self::V) -> bool {
        false
    }

    open spec fn init_cache_spec(m: Self::V, cache: EntryCacheView) -> Self::V {
        SubjectLineLengthView {
            shortest_length: match cache.shortest_subject_line_length {
                Some(length) => length,
                None => m.shortest_length,
            },
            longest_length: match cache.longest_subject_line_length {
                Some(length) => length,
                None => m.longest_length,
            },
            ..m
        }
    }

    open spec fn fini_cache_spec(m: Self::V, cache: EntryCacheView) -> EntryCacheView {
        EntryCacheView {
            shortest_subject_line_length: Some(m.shortest_length),
            longest_subject_line_length: Some(m.longest_length),
            ..cache
        }
    }

    open spec fn process_spec(m: Self::V, commit: Commit) -> (Self::V, Seq<Achievement>) {
        let length = commit.message_title@.len();
        let shorter = length < m.h2_config.length_threshold && length < m.shortest_length;
        let longer = length > m.h3_config.length_threshold && length > m.longest_length;
        (
            SubjectLineLengthView {
                shortest_length: if shorter {
                    length as usize
                } else {
                    m.shortest_length
                },
                shortest_so_far: if shorter {
                    Some(commit.id)
                } else {
                    m.shortest_so_far
                },
                longest_length: if longer {
                    length as usize
                } else {
                    m.longest_length
                },
                longest_so_far: if longer {
                    Some(commit.id)
                } else {
                    m.longest_so_far
                },
                ..m
            },
            Seq::empty(),
        )
    }

    open spec fn finalize_spec(m: Self::V) -> (Self::V, Seq<Achievement>) {
        (
            m,
            (match m.shortest_so_far {
                Some(oid) => granted_under(m.descriptors, 0, oid),
                None => Seq::empty(),
            }) + (match m.longest_so_far {
                Some(oid) => granted_under(m.descriptors, 1, oid),
                None => Seq::empty(),
            }),
        )
    }

    open spec fn diff_start_spec(m: Self::V, commit: Commit) -> Self::V {
        m
    }

    open spec fn diff_change_spec(m: Self::V, commit: Commit, change: TreeChange) -> (
        Self::V,
        DiffAction,
    ) {
        (m, DiffAction::Cancel)
    }

    open spec fn diff_end_spec(m: Self::V, commit: Commit) -> (Self::V, Seq<Achievement>) {
        (m, Seq::empty())
    }

    proof fn lemma_with_descriptors(
        m: Self::V,
        a: Seq<AchievementDescriptor>,
        b: Seq<AchievementDescriptor>,
    ) {
    }

    proof fn lemma_descriptors_stay(
        m: Self::V,
        commit: Commit,
        change: TreeChange,
        cache: EntryCacheView,
    ) {
    }

    fn get_descriptors(&self) -> (out: &[AchievementDescriptor]) {
        self.descriptors.as_slice()
    }

    fn get_descriptors_mut(&mut self) -> (out: &mut [AchievementDescriptor]) {
        self.descriptors.as_mut_slice()
    }

    fn init_cache(&mut self, cache: &EntryCache) {
        if let Some(length) = cache.shortest_subject_line_length {
            self.shortest_length = length;
        }
        if let Some(length) = cache.longest_subject_line_length {
            self.longest_length = length;
        }
    }

    fn fini_cache(&self, cache: &mut EntryCache) {
        cache.shortest_subject_line_length = Some(self.shortest_length);
        cache.longest_subject_line_length = Some(self.longest_length);
    }

    fn process(&mut self, commit: &Commit) -> (out: Vec<Achievement>) {
        let length = subject_length(commit);
        if length < self.h2_config.length_threshold && length < self.shortest_length {
            self.shortest_length = length;
            self.shortest_so_far = Some(commit.id);
        }
        if length > self.h3_config.length_threshold && length > self.longest_length {
            self.longest_length = length;
            self.longest_so_far = Some(commit.id);
        }
        Vec::new()
    }

    fn finalize(&mut self) -> (out: Vec<Achievement>) {
        let mut achievements: Vec<Achievement> = Vec::new();
        if let Some(oid) = self.shortest_so_far {
            let mut new = grant_under(&self.descriptors, 0, oid);
            achievements.append(&mut new);
        }
        if let Some(oid) = self.longest_so_far {
            let mut new = grant_under(&self.descriptors, 1, oid);
            achievements.append(&mut new);
        }
        achievements
    }

    fn is_interested_in_diffs(&self) -> (r: bool) {
        false
    }

    fn on_diff_start(&mut self, commit: &Commit) {
    }

    fn on_diff_change(&mut self, commit: &Commit, change: &TreeChange) -> (out: Result<
        DiffAction,
        RuleError,
    >)
        ensures
            out matches Ok(action) && action == DiffAction::Cancel,
    {
        Ok(DiffAction::Cancel)
    }

    fn on_diff_end(&mut self, commit: &Commit) -> (out: Vec<Achievement>) {
        Vec::new()
    }
}

/// The rule after it was shown the first `n` of `commits`, in order.
pub open spec fn shown_commits(
    m: SubjectLineLengthView,
    commits: Seq<Commit>,
    n: int,
) -> SubjectLineLengthView
    decreases n,
{
    if n <= 0 {
        m
    } else {
        SubjectLineLength::process_spec(shown_commits(m, commits, n - 1), commits[n - 1]).0
    }
}

/// The length of the subject line of the commit at `k`.
pub open spec fn subject_at(commits: Seq<Commit>, k: int) -> int {
    commits[k].message_title@.len() as int
}

/// Whether the rule holds what is asked of it after the first `n` of
/// `commits`: the shortest subject line under its threshold, if there is
/// one, with the first commit that has it; and the longest likewise.
pub open spec fn holds_extremes(
    m: SubjectLineLengthView,
    h2: H002Config,
    h3: H003Config,
    commits: Seq<Commit>,
    n: int,
) -> bool {
    &&& m.h2_config == h2
    &&& m.h3_config == h3
    &&& m.shortest_so_far is Some <==> exists|k: int|
        0 <= k < n && #[trigger] subject_at(commits, k) < h2.length_threshold
    &&& m.shortest_so_far is None ==> m.shortest_length == usize::MAX
    &&& m.shortest_so_far matches Some(id) ==> m.shortest_length < h2.length_threshold && (
    forall|k: int| 0 <= k < n ==> m.shortest_length <= #[trigger] subject_at(commits, k))
        && exists|k: int|
        0 <= k < n && commits[k].id == id && #[trigger] subject_at(commits, k)
            == m.shortest_length
    &&& m.longest_so_far is Some <==> exists|k: int|
        0 <= k < n && #[trigger] subject_at(commits, k) > h3.length_threshold
    &&& m.longest_so_far is None ==> m.longest_length == 0
    &&& m.longest_so_far matches Some(id) ==> m.longest_length > h3.length_threshold && (forall|
        k: int,
    | 0 <= k < n ==> m.longest_length >= #[trigger] subject_at(commits, k)) && exists|k: int|
        0 <= k < n && commits[k].id == id && #[trigger] subject_at(commits, k) == m.longest_length
}

/// Whatever commits the rule is shown after it was made, it holds the
/// shortest subject line under its threshold and the longest over its
/// threshold, each with a commit that has it, and none where no commit has
/// such a subject line. Its descriptors may be enabled or not.
///
/// When it is finalized it grants under its first descriptor to the commit
/// with the shortest subject line, and then under its second to the commit
/// with the longest: see [`Rule::finalize_spec`].
pub proof fn lemma_subject_lines(
    h2: H002Config,
    h3: H003Config,
    ds: Seq<AchievementDescriptor>,
    commits: Seq<Commit>,
    n: int,
)
    requires
        0 <= n <= commits.len(),
    ensures
        holds_extremes(
            shown_commits(
                SubjectLineLength::with_descriptors(fresh_subject_line_length(h2, h3), ds),
                commits,
                n,
            ),
            h2,
            h3,
            commits,
            n,
        ),
        shown_commits(
            SubjectLineLength::with_descriptors(fresh_subject_line_length(h2, h3), ds),
            commits,
            n,
        ).descriptors == ds,
    decreases n,
{
    let fresh = SubjectLineLength::with_descriptors(fresh_subject_line_length(h2, h3), ds);
    if n > 0 {
        lemma_subject_lines(h2, h3, ds, commits, n - 1);
        let before = shown_commits(fresh, commits, n - 1);
        let after = shown_commits(fresh, commits, n);
        let length = subject_at(commits, n - 1);
        assert(after == SubjectLineLength::process_spec(before, commits[n - 1]).0);
        // A title is no longer than a length can say.
        assert(commits[n - 1].message_title.len() == length);
        if length < h2.length_threshold && length < before.shortest_length {
            assert(subject_at(commits, n - 1) == after.shortest_length);
        } else {
            if before.shortest_so_far is Some {
                let k = choose|k: int|
                    0 <= k < n - 1 && commits[k].id == before.shortest_so_far->0
                        && #[trigger] subject_at(commits, k) == before.shortest_length;
                assert(subject_at(commits, k) < h2.length_threshold);
            }
        }
        if after.shortest_so_far is None {
            assert forall|k: int| 0 <= k < n implies !(#[trigger] subject_at(commits, k)
                < h2.length_threshold) by {}
        }
        if length > h3.length_threshold && length > before.longest_length {
            assert(subject_at(commits, n - 1) == after.longest_length);
        } else {
            if before.longest_so_far is Some {
                let k = choose|k: int|
                    0 <= k < n - 1 && commits[k].id == before.longest_so_far->0
                        && #[trigger] subject_at(commits, k) == before.longest_length;
                assert(subject_at(commits, k) > h3.length_threshold);
            }
        }
        if after.longest_so_far is None {
            assert forall|k: int| 0 <= k < n implies !(#[trigger] subject_at(commits, k)
                > h3.length_threshold) by {}
        }
    }
}

} // verus!
