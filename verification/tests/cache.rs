use herostratus::cache::{CacheRead, EntryCache, GlobalCache};
use herostratus::git::ObjectId;

fn entry(n: u8) -> EntryCache {
    EntryCache {
        last_processed_commit: Some(ObjectId::from_bytes([n; 20])),
        last_processed_rules: vec![n as usize],
        ..Default::default()
    }
}

#[test]
fn test_in_memory_cache() {
    let mut cache = GlobalCache::in_memory();
    assert!(cache.cache_path.is_none());
    assert!(cache.entry_caches.is_empty());

    let _ = cache.get_entry_cache("NAME", "BRANCH1");
    let _ = cache.get_entry_cache("NAME", "BRANCH2");
    assert_eq!(cache.entry_caches.len(), 2);
    let _ = cache.get_entry_cache("NAME", "BRANCH1");
    assert_eq!(cache.entry_caches.len(), 2);
    assert_eq!(cache.entry_caches[0].0, "NAME#BRANCH1");
    assert_eq!(cache.entry_caches[1].0, "NAME#BRANCH2");
    assert!(cache.is_well_formed());
}

#[test]
fn a_new_record_is_empty_and_what_is_written_to_it_stays() {
    let mut cache = GlobalCache::in_memory();
    let record = cache.get_entry_cache("repo", "HEAD");
    assert_eq!(record.last_processed_commit, None);
    assert!(record.last_processed_rules.is_empty());
    assert_eq!(record.shortest_subject_line_length, None);
    assert_eq!(record.longest_subject_line_length, None);
    assert!(record.unknown_fields.is_empty());
    *record = entry(7);

    let other = cache.get_entry_cache("repo", "main");
    assert_eq!(other.last_processed_commit, None);
    other.last_processed_rules.push(3);

    let record = cache.get_entry_cache("repo", "HEAD");
    assert_eq!(
        record.last_processed_commit,
        Some(ObjectId::from_bytes([7; 20]))
    );
    assert_eq!(record.last_processed_rules, [7]);
    assert_eq!(cache.get_entry_cache("repo", "main").last_processed_rules, [3]);
    // the key is the name, `#` and the reference, whatever they hold
    assert_eq!(cache.get_entry_cache("re", "po#HEAD").last_processed_rules, []);
    assert_eq!(cache.entry_caches.len(), 3);
}

#[test]
fn the_cache_of_a_data_dir_holds_what_was_stored() {
    let cache = GlobalCache::from_data_dir("/data", None);
    assert_eq!(cache.cache_path.as_deref(), Some("/data/cache.json"));
    assert!(cache.entry_caches.is_empty());

    let stored = vec![
        ("a#HEAD".to_string(), entry(1)),
        ("b#HEAD".to_string(), entry(2)),
        ("a#HEAD".to_string(), entry(3)),
    ];
    let mut cache = GlobalCache::from_data_dir("/data/", Some(stored));
    assert_eq!(cache.cache_path.as_deref(), Some("/data/cache.json"));
    assert!(cache.is_well_formed());
    assert_eq!(cache.entry_caches.len(), 2);
    assert_eq!(cache.get_entry_cache("a", "HEAD").last_processed_rules, [1]);
    assert_eq!(cache.get_entry_cache("b", "HEAD").last_processed_rules, [2]);
    assert_eq!(cache.entry_caches.len(), 2);
}

#[test]
fn object_ids_are_rendered_and_read_as_forty_hex_digits() {
    let mut bytes = [0u8; 20];
    for (i, b) in bytes.iter_mut().enumerate() {
        *b = (i as u8) * 13 + 7;
    }
    let id = ObjectId::from_bytes(bytes);
    let hex = id.to_hex();
    assert_eq!(hex, "0714212e3b4855626f7c8996a3b0bdcad7e4f1fe");
    assert_eq!(ObjectId::from_hex(&hex), Some(id));
    assert_eq!(
        ObjectId::null().to_hex(),
        "0000000000000000000000000000000000000000"
    );
    assert_eq!(
        ObjectId::from_hex("60b480b554dbd5266eec0f2378f72df5170a6702")
            .unwrap()
            .to_hex(),
        "60b480b554dbd5266eec0f2378f72df5170a6702"
    );
    // too short, too long, upper case, not hexadecimal
    assert_eq!(ObjectId::from_hex(""), None);
    assert_eq!(
        ObjectId::from_hex("60b480b554dbd5266eec0f2378f72df5170a670"),
        None
    );
    assert_eq!(
        ObjectId::from_hex("60b480b554dbd5266eec0f2378f72df5170a67021"),
        None
    );
    assert_eq!(
        ObjectId::from_hex("60B480B554DBD5266EEC0F2378F72DF5170A6702"),
        None
    );
    assert_eq!(
        ObjectId::from_hex("60b480b554dbd5266eec0f2378f72df5170a670g"),
        None
    );
    assert_ne!(ObjectId::from_bytes([1; 20]), ObjectId::from_bytes([2; 20]));
    let mut almost = [1u8; 20];
    almost[19] = 2;
    assert_ne!(ObjectId::from_bytes([1; 20]), ObjectId::from_bytes(almost));
    assert_eq!(ObjectId::from_bytes([1; 20]), ObjectId::from_bytes([1; 20]));
}

#[test]
fn test_read_write_cache() {
    let mut cache = GlobalCache::from_data_dir("/tmp/data", None);
    assert!(cache.entry_caches.is_empty());

    let _ = cache.get_entry_cache("NAME", "BRANCH1");
    let _ = cache.get_entry_cache("NAME", "BRANCH2");
    assert_eq!(cache.entry_caches.len(), 2);
    // what is written when the cache is given up is what the next one is made of
    let written = cache.entry_caches;

    let cache = GlobalCache::from_data_dir("/tmp/data", Some(written));
    assert_eq!(cache.entry_caches.len(), 2);
}

#[test]
fn a_cache_file_that_cannot_be_read_counts_as_an_empty_one() {
    let missing = GlobalCache::from_read("/tmp/data", CacheRead::Missing);
    assert!(missing.entry_caches.is_empty());
    assert_eq!(missing.cache_path.as_deref(), Some("/tmp/data/cache.json"));

    let unreadable = GlobalCache::from_read("/tmp/data", CacheRead::Unreadable);
    assert!(unreadable.entry_caches.is_empty());
    assert_eq!(unreadable.cache_path.as_deref(), Some("/tmp/data/cache.json"));
    assert!(unreadable.is_well_formed());

    // of two records under one key the first is kept
    let entries = vec![
        ("a#HEAD".to_string(), entry(1)),
        ("b#HEAD".to_string(), entry(2)),
        ("a#HEAD".to_string(), entry(3)),
    ];
    let read = GlobalCache::from_read("/tmp/data", CacheRead::Entries(entries));
    let keys: Vec<&str> = read.entry_caches.iter().map(|e| e.0.as_str()).collect();
    assert_eq!(keys, ["a#HEAD", "b#HEAD"]);
    assert_eq!(
        read.entry_caches[0].1.last_processed_commit,
        entry(1).last_processed_commit
    );
}
