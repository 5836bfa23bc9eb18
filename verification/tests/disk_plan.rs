use kvcache::disk::DiskCache;

#[test]
fn filename_is_a_digest() {
    let key = "some key".to_string();
    let name = DiskCache::key_to_filename(&key);
    // The digest name is fixed-length, hexadecimal, and nothing like the key.
    assert_eq!(name.len(), 64);
    assert!(name.chars().all(|c| c.is_ascii_hexdigit()));
    assert_ne!(name, key);
    // It is a function of the key alone.
    assert_eq!(name, DiskCache::key_to_filename(&"some key".to_string()));
    // Distinct keys get distinct files.
    assert_ne!(name, DiskCache::key_to_filename(&"some_key".to_string()));
}

#[test]
fn filename_of_empty_key() {
    let name = DiskCache::key_to_filename(&String::new());
    assert_eq!(name.len(), 64);
    assert!(name.chars().all(|c| c.is_ascii_hexdigit()));
}

#[test]
fn path_joins_directory_and_digest() {
    let cache = DiskCache::new("/tmp/cache".to_string());
    let key = "some key".to_string();
    let path = cache.key_to_path(&key);
    let name = DiskCache::key_to_filename(&key);
    assert_eq!(path, format!("/tmp/cache/{}", name));
}

#[test]
fn write_plan_matches_protocol() {
    let cache = DiskCache::new("/tmp/cache".to_string());
    let key = "some key".to_string();
    let value = "a value".to_string();
    let plan = cache.plan_write(&key, &value);
    assert_eq!(plan.final_path, cache.key_to_path(&key));
    assert_eq!(plan.tmp_path, format!("{}.new", plan.final_path));
    assert_eq!(plan.contents, "00000000000000000008some keya value");
}

#[test]
fn modify_writes_only_existing_entries() {
    let cache = DiskCache::new("/tmp/cache".to_string());
    let key = "some key".to_string();
    let value = "another value".to_string();
    assert!(cache.plan_modify(false, &key, &value).is_none());
    let plan = cache.plan_modify(true, &key, &value).unwrap();
    let direct = cache.plan_write(&key, &value);
    assert_eq!(plan.final_path, direct.final_path);
    assert_eq!(plan.tmp_path, direct.tmp_path);
    assert_eq!(plan.contents, direct.contents);
}

#[test]
fn entry_names_are_told_by_length() {
    let key = "some key".to_string();
    let name = DiskCache::key_to_filename(&key);
    assert!(DiskCache::is_entry_name(&name));
    let tmp_name = format!("{}.new", name);
    assert!(!DiskCache::is_entry_name(&tmp_name));
    assert!(!DiskCache::is_entry_name(&"short".to_string()));
}

#[test]
fn entries_from_files_reads_records() {
    let files = vec![
        "00000000000000000001axy".to_string(),
        "00000000000000000000".to_string(),
    ];
    let entries = DiskCache::entries_from_files(&files);
    assert_eq!(
        entries,
        Some(vec![
            ("a".to_string(), "xy".to_string()),
            (String::new(), String::new()),
        ])
    );
}

#[test]
fn entries_from_files_reports_corruption() {
    let files = vec![
        "00000000000000000001axy".to_string(),
        "not a record".to_string(),
    ];
    assert_eq!(DiskCache::entries_from_files(&files), None);
}
