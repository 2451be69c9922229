//! A run of the engine that takes no more than a given number of commits.
use vstd::prelude::*;

use crate::achievement::achievement::{DiffAction, Rule};
use crate::achievement::model::{
    change_shown, commit_begun, commit_ended, commit_fed, initial_state, models, next_spec,
    stamped, walk_ended, wants_changes, EngineView, Step,
};
use crate::achievement::process_rules::{process_rules, Achievements};
use crate::cache::EntryCache;
use crate::git::{Commit, TreeChange, WalkItem};

verus! {

/// One step of a run that may take `left` more commits: a step of the
/// engine; but where the engine asks for a commit and none may be taken, the
/// walk is ended in its place and the engine is stepped again. So a commit
/// is asked for only where one may be taken.
pub open spec fn bounded_step<R: Rule>(s: EngineView<R::V>, left: Option<usize>) -> (
    EngineView<R::V>,
    Step,
) {
    let stepped = next_spec::<R>(s);
    if stepped.1 is NeedsCommit && left == Some(0usize) {
        next_spec::<R>(walk_ended::<R>(stepped.0))
    } else {
        stepped
    }
}

/// How many commits may be taken after one more was taken.
pub open spec fn one_less(left: Option<usize>) -> Option<usize> {
    match left {
        Some(n) => Some(
            if n > 0 {
                (n - 1) as usize
            } else {
                n
            },
        ),
        None => None,
    }
}

/// An engine, and how many commits it may still take. Whoever reads the
/// commits steps it: the walk itself, and the changes of each commit, are
/// read only as far as the run asks for them.
pub struct BoundedRun<R: Rule> {
    pub engine: Achievements<R>,
    /// How many commits may still be taken; `None` where there is no limit.
    pub commits_left: Option<usize>,
}

impl<R: Rule> BoundedRun<R> {
    /// Whether the engine of the run is well-formed.
    pub open spec fn wf(&self) -> bool {
        self.engine.wf()
    }

    /// Whether the engine of the run is well-formed.
    pub fn is_well_formed(&self) -> (r: bool)
        ensures
            r == self.wf(),
    {
        self.engine.is_well_formed()
    }

    /// A run of `rules` that starts from what `entry_cache` holds and takes
    /// at most `depth` commits, where a depth is given.
    pub fn begin(entry_cache: EntryCache, rules: Vec<R>, depth: Option<usize>) -> (run: Self)
        ensures
            run.wf(),
            run.engine@ == initial_state::<R>(models(rules@), entry_cache@),
            run.commits_left == depth,
    {
        BoundedRun { engine: process_rules(entry_cache, rules), commits_left: depth }
    }

    /// One step of the run.
    ///
    /// After [`Step::NeedsCommit`], give the run the next commit of the walk
    /// with [`Self::feed_commit`], or with [`Self::begin_commit`] and what
    /// follows it; or call [`Self::end_walk`] where the walk has no more.
    pub fn next(&mut self) -> (step: Step)
        requires
            old(self).wf(),
        ensures
            final(self).wf(),
            final(self).engine@ == bounded_step::<R>(
                old(self).engine@,
                old(self).commits_left,
            ).0,
            step == bounded_step::<R>(old(self).engine@, old(self).commits_left).1,
            final(self).commits_left == old(self).commits_left,
    {
        let step = self.engine.next();
        let used_up = match self.commits_left {
            Some(left) => left == 0,
            None => false,
        };
        match step {
            Step::NeedsCommit => {
                if used_up {
                    self.engine.end_walk();
                    self.engine.next()
                } else {
                    step
                }
            },
            _ => step,
        }
    }

    /// Gives the run the next commit of the walk with all its changes. See
    /// [`Achievements::feed_commit`].
    pub fn feed_commit(&mut self, item: &WalkItem)
        requires
            old(self).wf(),
        ensures
            final(self).wf(),
            final(self).engine@ == commit_fed::<R>(old(self).engine@, *item),
            final(self).commits_left == one_less(old(self).commits_left),
    {
        self.take_one();
        self.engine.feed_commit(item);
    }

    /// Begins the next commit of the walk. Returns whether the changes of
    /// the commit are wanted. See [`Achievements::begin_commit`].
    pub fn begin_commit(&mut self, commit: &Commit) -> (wanted: bool)
        requires
            old(self).wf(),
        ensures
            final(self).wf(),
            final(self).engine@ == commit_begun::<R>(old(self).engine@, *commit),
            wanted == wants_changes(final(self).engine@, *commit),
            final(self).commits_left == one_less(old(self).commits_left),
    {
        self.take_one();
        self.engine.begin_commit(commit)
    }

    /// Shows one change of the commit that was begun. See
    /// [`Achievements::on_diff_change`].
    pub fn on_diff_change(&mut self, commit: &Commit, change: &TreeChange) -> (action: DiffAction)
        requires
            old(self).wf(),
        ensures
            final(self).wf(),
            final(self).engine@ == change_shown::<R>(old(self).engine@, *commit, *change).0,
            action == change_shown::<R>(old(self).engine@, *commit, *change).1,
            final(self).commits_left == old(self).commits_left,
    {
        self.engine.on_diff_change(commit, change)
    }

    /// Ends the commit that was begun. See [`Achievements::end_commit`].
    pub fn end_commit(&mut self, commit: &Commit)
        requires
            old(self).wf(),
        ensures
            final(self).wf(),
            final(self).engine@ == commit_ended::<R>(old(self).engine@, *commit),
            final(self).commits_left == old(self).commits_left,
    {
        self.engine.end_commit(commit)
    }

    /// Tells the run that the walk has no more commits.
    pub fn end_walk(&mut self)
        requires
            old(self).wf(),
        ensures
            final(self).wf(),
            final(self).engine@ == walk_ended::<R>(old(self).engine@),
            final(self).commits_left == old(self).commits_left,
    {
        self.engine.end_walk()
    }

    /// Ends the run and returns the record. See [`Achievements::into_cache`].
    pub fn into_cache(self) -> (cache: EntryCache)
        requires
            self.wf(),
        ensures
            cache@ == if self.engine@.summary_due {
                stamped::<R>(self.engine@)
            } else {
                self.engine@.cache
            },
    {
        self.engine.into_cache()
    }

    /// Counts one commit as taken.
    fn take_one(&mut self)
        ensures
            final(self).engine == old(self).engine,
            final(self).commits_left == one_less(old(self).commits_left),
    {
        if let Some(left) = self.commits_left {
            if left > 0 {
                self.commits_left = Some(left - 1);
            }
        }
    }
}

} // verus!
