//! The record that one repository and reference leave behind.
use vstd::prelude::*;

use crate::git::CommitId;

verus! {

/// What the last completed run on one repository and reference recorded.
#[derive(Clone, Debug)]
pub struct EntryCache {
    /// The newest commit that the last run looked at: the first of its walk.
    pub last_processed_commit: Option<CommitId>,
    /// The ids of the descriptors that were enabled when the last run ended.
    pub last_processed_rules: Vec<usize>,
    /// The length of the shortest subject line found so far.
    pub shortest_subject_line_length: Option<usize>,
    /// The length of the longest subject line found so far.
    pub longest_subject_line_length: Option<usize>,
    /// Fields of the stored record that this version does not know, each with
    /// its name and its JSON text. They are written back as they were read.
    pub unknown_fields: Vec<(String, String)>,
}

/// The mathematical content of an [`EntryCache`].
#[verifier::ext_equal]
pub struct EntryCacheView {
    pub last_processed_commit: Option<CommitId>,
    pub last_processed_rules: Seq<usize>,
    pub shortest_subject_line_length: Option<usize>,
    pub longest_subject_line_length: Option<usize>,
    pub unknown_fields: Seq<(String, String)>,
}

impl View for EntryCache {
    type V = EntryCacheView;

    open spec fn view(&self) -> EntryCacheView {
        EntryCacheView {
            last_processed_commit: self.last_processed_commit,
            last_processed_rules: self.last_processed_rules@,
            shortest_subject_line_length: self.shortest_subject_line_length,
            longest_subject_line_length: self.longest_subject_line_length,
            unknown_fields: self.unknown_fields@,
        }
    }
}

impl EntryCache {
    /// The record of a repository that was never processed.
    pub fn new() -> (cache: EntryCache)
        ensures
            cache.is_empty(),
            cache@ == EntryCache::new_view(),
    {
        let cache = EntryCache {
            last_processed_commit: None,
            last_processed_rules: Vec::new(),
            shortest_subject_line_length: None,
            longest_subject_line_length: None,
            unknown_fields: Vec::new(),
        };
        assert(cache@ =~= EntryCache::new_view());
        cache
    }

    /// The content of the record of a repository that was never processed.
    pub open spec fn new_view() -> EntryCacheView {
        EntryCacheView {
            last_processed_commit: None,
            last_processed_rules: Seq::empty(),
            shortest_subject_line_length: None,
            longest_subject_line_length: None,
            unknown_fields: Seq::empty(),
        }
    }

    /// Whether the record holds nothing.
    pub open spec fn is_empty(&self) -> bool {
        &&& self.last_processed_commit is None
        &&& self.last_processed_rules@.len() == 0
        &&& self.shortest_subject_line_length is None
        &&& self.longest_subject_line_length is None
        &&& self.unknown_fields@.len() == 0
    }
}

impl Default for EntryCache {
    fn default() -> (cache: EntryCache)
        ensures
            cache.is_empty(),
            cache@ == EntryCache::new_view(),
    {
        EntryCache::new()
    }
}

} // verus!
