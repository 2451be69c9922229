//! The records of all repositories and references.
use vstd::prelude::*;

use crate::cache::entry::{EntryCache, EntryCacheView};
use crate::utils::keyed::{
    distinct_entries, find_key, first_index, index_of_key, keys_are_distinct, keys_of,
    lemma_index_is_first,
    lemma_index_of_key, lemma_key_is_held,
};
use crate::utils::text::{chars_of, join_path, joined, push_all, string_from_chars};

verus! {

/// The records of all repositories and references, each under the key made
/// of the name of the repository, `#` and the reference.
///
/// The records are read from the file `cache.json` in the data directory when
/// the program starts, and written back when it ends; reading and writing
/// the file is left to the program.
#[derive(Debug)]
pub struct GlobalCache {
    /// The file that the records are kept in, unless they are kept in
    /// memory only.
    pub cache_path: Option<String>,
    /// The records with their keys. No key occurs twice.
    pub entry_caches: Vec<(String, EntryCache)>,
}

/// What reading the file of the records came to.
#[derive(Debug)]
pub enum CacheRead {
    /// There is no file: nothing was recorded yet.
    Missing,
    /// There is a file, and it could not be read or understood.
    Unreadable,
    /// The records that the file holds, with their keys.
    Entries(Vec<(String, EntryCache)>),
}

/// The records that the program starts from: those that were read. A file
/// that could not be read or understood counts as one without records, as a
/// missing file does.
pub open spec fn entries_read(read: CacheRead) -> Seq<(String, EntryCache)> {
    match read {
        CacheRead::Entries(entries) => entries@,
        CacheRead::Missing => Seq::empty(),
        CacheRead::Unreadable => Seq::empty(),
    }
}

/// The key of the record of a repository and a reference.
pub open spec fn cache_key(name: Seq<char>, reference: Seq<char>) -> Seq<char> {
    name + seq!['#'] + reference
}

/// The keys and contents of records.
pub open spec fn records_of(
    entries: Seq<(String, EntryCache)>,
) -> Seq<(Seq<char>, EntryCacheView)> {
    Seq::new(entries.len(), |i: int| (entries[i].0@, entries[i].1@))
}

/// The keys of records.
pub open spec fn record_keys(records: Seq<(Seq<char>, EntryCacheView)>) -> Seq<Seq<char>> {
    Seq::new(records.len(), |i: int| records[i].0)
}

/// What is recorded under a key: the content of the first record with the
/// key, or that of an empty record where there is none.
pub open spec fn record_of(
    records: Seq<(Seq<char>, EntryCacheView)>,
    key: Seq<char>,
) -> EntryCacheView {
    let i = first_index(record_keys(records), key);
    if i < records.len() {
        records[i].1
    } else {
        EntryCache::new_view()
    }
}

/// The records with `content` under `key`: in place of what the first
/// record with the key held, or as a new record behind all others.
pub open spec fn recorded(
    records: Seq<(Seq<char>, EntryCacheView)>,
    key: Seq<char>,
    content: EntryCacheView,
) -> Seq<(Seq<char>, EntryCacheView)> {
    let i = first_index(record_keys(records), key);
    if i < records.len() {
        records.update(i, (key, content))
    } else {
        records.push((key, content))
    }
}

impl GlobalCache {
    /// The keys and contents of the records.
    pub open spec fn records(&self) -> Seq<(Seq<char>, EntryCacheView)> {
        records_of(self.entry_caches@)
    }

    /// Whether no key occurs twice.
    pub open spec fn wf(&self) -> bool {
        keys_of(self.entry_caches@).no_duplicates()
    }

    /// Whether no key occurs twice.
    pub fn is_well_formed(&self) -> (r: bool)
        ensures
            r == self.wf(),
    {
        keys_are_distinct(&self.entry_caches)
    }

    /// A cache that is kept in memory only.
    pub fn in_memory() -> (cache: Self)
        ensures
            cache.wf(),
            cache.cache_path is None,
            cache.entry_caches@.len() == 0,
    {
        Self { cache_path: None, entry_caches: Vec::new() }
    }

    /// The cache of the data directory `data_dir`: its file is `cache.json`
    /// in that directory, and its records are those that were read from the
    /// file. `stored` is `None` where there is no such file yet. Of stored
    /// records with one key the first is kept.
    pub fn from_data_dir(data_dir: &str, stored: Option<Vec<(String, EntryCache)>>) -> (cache: Self)
        ensures
            cache.wf(),
            cache.cache_path matches Some(path) && path@ == joined(data_dir@, "cache.json"@),
            cache.entry_caches@ == match stored {
                Some(entries) => distinct_entries(entries@, entries@.len() as int),
                None => Seq::empty(),
            },
    {
        let cache_path = join_path(data_dir, "cache.json");
        let mut entry_caches: Vec<(String, EntryCache)> = Vec::new();
        if let Some(entries) = stored {
            let mut rest = entries;
            let ghost all = rest@;
            let ghost mut taken: int = 0;
            while rest.len() > 0
                invariant
                    0 <= taken,
                    taken + rest@.len() == all.len(),
                    rest@ == all.skip(taken),
                    keys_of(entry_caches@).no_duplicates(),
                    entry_caches@ == distinct_entries(all, taken),
                decreases rest@.len(),
            {
                let entry = rest.remove(0);
                let key = chars_of(entry.0.as_str());
                let ghost before = entry_caches@;
                proof {
                    assert(entry == all[taken]);
                    lemma_index_of_key(before, key@);
                    lemma_key_is_held(before, key@);
                }
                if find_key(&entry_caches, &key) == entry_caches.len() {
                    entry_caches.push(entry);
                    assert(keys_of(entry_caches@) =~= keys_of(before).push(key@));
                }
                proof {
                    assert(rest@ =~= all.skip(taken + 1));
                    taken = taken + 1;
                }
            }
        }
        Self { cache_path: Some(cache_path), entry_caches }
    }

    /// The records of a data directory, given what reading their file came
    /// to. A file that cannot be read never keeps the program from running:
    /// it starts without records then, and the file is written anew at the
    /// end.
    pub fn from_read(data_dir: &str, read: CacheRead) -> (cache: Self)
        ensures
            cache.wf(),
            cache.cache_path matches Some(path) && path@ == joined(data_dir@, "cache.json"@),
            cache.entry_caches@ == distinct_entries(
                entries_read(read),
                entries_read(read).len() as int,
            ),
    {
        match read {
            CacheRead::Entries(entries) => GlobalCache::from_data_dir(data_dir, Some(entries)),
            CacheRead::Missing => GlobalCache::from_data_dir(data_dir, None),
            CacheRead::Unreadable => GlobalCache::from_data_dir(data_dir, None),
        }
    }

    /// The record of the reference `reference` of the repository `name`. A
    /// record that is not there yet is made, and is empty.
    ///
    /// `name` is the name that the repository has in the configuration.
    pub fn get_entry_cache(&mut self, name: &str, reference: &str) -> (entry: &mut EntryCache)
        requires
            old(self).wf(),
        ensures
            final(self).wf(),
            final(self).cache_path == old(self).cache_path,
            index_of_key(old(self).entry_caches@, cache_key(name@, reference@)) < old(
                self,
            ).entry_caches@.len() ==> {
                let i = index_of_key(old(self).entry_caches@, cache_key(name@, reference@));
                &&& *entry == old(self).entry_caches@[i].1
                &&& final(self).entry_caches@ == old(self).entry_caches@.update(
                    i,
                    (old(self).entry_caches@[i].0, *final(entry)),
                )
            },
            index_of_key(old(self).entry_caches@, cache_key(name@, reference@)) == old(
                self,
            ).entry_caches@.len() ==> {
                &&& entry.is_empty()
                &&& final(self).entry_caches@.len() == old(self).entry_caches@.len() + 1
                &&& final(self).entry_caches@.drop_last() == old(self).entry_caches@
                &&& final(self).entry_caches@.last().0@ == cache_key(name@, reference@)
                &&& final(self).entry_caches@.last().1 == *final(entry)
            },
            entry@ == record_of(old(self).records(), cache_key(name@, reference@)),
            final(self).records() == recorded(
                old(self).records(),
                cache_key(name@, reference@),
                final(entry)@,
            ),
    {
        let mut key: Vec<char> = Vec::new();
        push_all(&mut key, &chars_of(name));
        key.push('#');
        push_all(&mut key, &chars_of(reference));
        assert(key@ =~= cache_key(name@, reference@));
        let ghost before = self.entry_caches@;
        proof {
            lemma_index_of_key(before, key@);
        }
        let index = find_key(&self.entry_caches, &key);
        if index == self.entry_caches.len() {
            self.entry_caches.push((string_from_chars(&key), EntryCache::new()));
            proof {
                lemma_key_is_held(before, key@);
                assert(self.entry_caches@.drop_last() =~= before);
                assert(keys_of(self.entry_caches@) =~= keys_of(before).push(key@));
            }
        }
        let ghost held = self.entry_caches@;
        proof {
            assert forall|e: EntryCache| #[trigger]
                keys_of(held.update(index as int, (held[index as int].0, e))) =~= keys_of(
                    held,
                ) by {}
            lemma_index_is_first(before, key@);
            lemma_index_of_key(before, key@);
            assert(record_keys(records_of(before)) =~= keys_of(before));
            if index == before.len() {
                assert forall|e: EntryCache| #[trigger]
                    records_of(held.update(index as int, (held[index as int].0, e)))
                        =~= records_of(before).push((key@, e@)) by {}
            } else {
                assert(held == before);
                assert forall|e: EntryCache| #[trigger]
                    records_of(held.update(index as int, (held[index as int].0, e)))
                        =~= records_of(before).update(index as int, (key@, e@)) by {}
            }
        }
        let slot = &mut self.entry_caches[index];
        &mut slot.1
    }
}

} // verus!
