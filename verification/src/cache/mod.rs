//! What a run leaves behind for the next one.
mod entry;
mod global;

pub use entry::{EntryCache, EntryCacheView};
pub use global::{
    cache_key, entries_read, record_keys, record_of, recorded, records_of, CacheRead, GlobalCache,
};
