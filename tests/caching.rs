use std::cell::Cell;

use nier::cache::{SourceCache, DEFAULT_CAPACITY};

#[test]
fn second_load_reads_nothing() {
    let reads = Cell::new(0usize);
    let read = |p: &String| -> Result<String, String> {
        reads.set(reads.get() + 1);
        Ok(format!("text of {}", p))
    };
    let mut cache = SourceCache::new(DEFAULT_CAPACITY);
    let path = "dfa.ron".to_string();
    let first = cache.load(&path, &read).unwrap();
    let second = cache.load(&path, &read).unwrap();
    assert_eq!(first, "text of dfa.ron");
    assert_eq!(first, second);
    assert_eq!(reads.get(), 1);
    assert_eq!(cache.len(), 1);
}

#[test]
fn failed_read_is_not_cached() {
    let reads = Cell::new(0usize);
    let read = |_: &String| -> Result<String, String> {
        reads.set(reads.get() + 1);
        Err("missing".to_string())
    };
    let mut cache = SourceCache::new(4);
    let path = "gone.ron".to_string();
    assert_eq!(cache.load(&path, &read), Err("missing".to_string()));
    assert_eq!(cache.load(&path, &read), Err("missing".to_string()));
    assert_eq!(reads.get(), 2);
    assert_eq!(cache.len(), 0);
}

#[test]
fn least_recently_used_is_evicted() {
    let mut cache = SourceCache::new(2);
    cache.insert("a".to_string(), "A".to_string());
    cache.insert("b".to_string(), "B".to_string());
    assert_eq!(cache.lookup(&"a".to_string()), Some("A".to_string()));
    cache.insert("c".to_string(), "C".to_string());
    assert_eq!(cache.len(), 2);
    assert_eq!(cache.lookup(&"b".to_string()), None);
    assert_eq!(cache.lookup(&"a".to_string()), Some("A".to_string()));
    assert_eq!(cache.lookup(&"c".to_string()), Some("C".to_string()));
}

#[test]
fn insert_replaces_older_entry() {
    let mut cache = SourceCache::new(2);
    cache.insert("a".to_string(), "old".to_string());
    cache.insert("a".to_string(), "new".to_string());
    assert_eq!(cache.len(), 1);
    assert_eq!(cache.lookup(&"a".to_string()), Some("new".to_string()));
}

#[test]
fn zero_capacity_stores_nothing() {
    let reads = Cell::new(0usize);
    let read = |_: &String| -> Result<String, String> {
        reads.set(reads.get() + 1);
        Ok("t".to_string())
    };
    let mut cache = SourceCache::new(0);
    let path = "p".to_string();
    assert_eq!(cache.load(&path, &read), Ok("t".to_string()));
    assert_eq!(cache.load(&path, &read), Ok("t".to_string()));
    assert_eq!(reads.get(), 2);
    assert_eq!(cache.len(), 0);
}
