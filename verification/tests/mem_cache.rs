use kvcache::mem::MemCache;

fn sorted_list(cache: &MemCache) -> Vec<(String, String)> {
    let mut entries = cache.list();
    entries.sort();
    entries
}

fn pair(k: &str, v: &str) -> (String, String) {
    (k.to_string(), v.to_string())
}

#[test]
fn empty_list() {
    let cache = MemCache::new();
    let entries = cache.list();
    assert_eq!(entries.len(), 0);
    assert!(entries.is_empty());
}

#[test]
fn add() {
    let mut cache = MemCache::new();
    cache.add("some key".to_string(), "a value".to_string());
    let entries = sorted_list(&cache);
    assert_eq!(entries.len(), 1);
    assert_eq!(entries, vec![pair("some key", "a value")]);
}

#[test]
fn add_two_values() {
    let mut cache = MemCache::new();
    cache.add("a".to_string(), "x".to_string());
    cache.add("b".to_string(), "y".to_string());
    let entries = sorted_list(&cache);
    assert_eq!(entries.len(), 2);
    assert_eq!(entries, vec![pair("a", "x"), pair("b", "y")]);
}

#[test]
fn add_overrides_previous_entry() {
    let mut cache = MemCache::new();
    cache.add("some key".to_string(), "a value".to_string());
    cache.add("some key".to_string(), "another value".to_string());
    let entries = sorted_list(&cache);
    assert_eq!(entries.len(), 1);
    assert_eq!(entries, vec![pair("some key", "another value")]);
}

#[test]
fn deleting_nonexistent_entry() {
    let mut cache = MemCache::new();
    assert!(!cache.delete(&"some key".to_string()));
}

#[test]
fn delete() {
    let mut cache = MemCache::new();
    cache.add("some key".to_string(), "a value".to_string());
    assert!(cache.delete(&"some key".to_string()));
    assert!(cache.list().is_empty());
    assert!(!cache.delete(&"some key".to_string()));
}

#[test]
fn modifying_nonexistent_entry() {
    let mut cache = MemCache::new();
    assert!(!cache.modify("some key".to_string(), "a value".to_string()));
    assert!(cache.list().is_empty());
    assert_eq!(cache.get(&"some key".to_string()), None);
}

#[test]
fn modify() {
    let mut cache = MemCache::new();
    cache.add("some key".to_string(), "a value".to_string());
    assert!(cache.modify("some key".to_string(), "another value".to_string()));
    let entries = sorted_list(&cache);
    assert_eq!(entries, vec![pair("some key", "another value")]);
}

#[test]
fn get_nonexistent_entry() {
    let cache = MemCache::new();
    assert_eq!(cache.get(&"some key".to_string()), None);
}

#[test]
fn get() {
    let mut cache = MemCache::new();
    cache.add("some key".to_string(), "a value".to_string());
    assert_eq!(
        cache.get(&"some key".to_string()),
        Some("a value".to_string())
    );
}

#[test]
fn end_to_end_contract() {
    let mut cache = MemCache::new();
    cache.add("a".to_string(), "x".to_string());
    cache.add("b".to_string(), "y".to_string());
    assert_eq!(sorted_list(&cache), vec![pair("a", "x"), pair("b", "y")]);
    assert!(cache.delete(&"a".to_string()));
    assert_eq!(sorted_list(&cache), vec![pair("b", "y")]);
    assert!(cache.modify("b".to_string(), "z".to_string()));
    assert_eq!(cache.get(&"b".to_string()), Some("z".to_string()));
    assert!(!cache.modify("c".to_string(), "w".to_string()));
    assert_eq!(cache.get(&"c".to_string()), None);
}

#[test]
fn delete_leaves_other_keys() {
    let mut cache = MemCache::new();
    cache.add("a".to_string(), "x".to_string());
    cache.add("b".to_string(), "y".to_string());
    assert!(cache.delete(&"a".to_string()));
    assert_eq!(cache.get(&"a".to_string()), None);
    assert_eq!(cache.get(&"b".to_string()), Some("y".to_string()));
}

#[test]
fn empty_key_and_value() {
    let mut cache = MemCache::new();
    cache.add(String::new(), String::new());
    assert_eq!(cache.get(&String::new()), Some(String::new()));
    assert_eq!(sorted_list(&cache), vec![pair("", "")]);
}
