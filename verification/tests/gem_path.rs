use nitrocop::config::gem_path::{
    bundle_info_path, cached_path, drain_resolved_paths, gem_path_disk_cache_file_name,
    insert_cache_entry, parse_batch_output, GemPathCache, GemPathDiskCache, LockfileMtime,
};
use std::path::PathBuf;

#[test]
fn parse_bundle_info_output() {
    // Simulate trimming of bundle info output
    let raw = "  /home/user/.gem/ruby/3.2.0/gems/rubocop-shopify-2.15.1  \n";
    let trimmed = String::from_utf8(bundle_info_path(raw.as_bytes())).unwrap();
    assert_eq!(
        trimmed,
        "/home/user/.gem/ruby/3.2.0/gems/rubocop-shopify-2.15.1"
    );
    let path = PathBuf::from(&trimmed);
    assert_eq!(
        path.file_name().unwrap().to_str().unwrap(),
        "rubocop-shopify-2.15.1"
    );
}

#[test]
fn cache_key_behavior() {
    // Verify None == None for lockfile mtime comparison
    let a: LockfileMtime = None;
    let b: LockfileMtime = None;
    assert_eq!(a, b);
    let mut cache: Option<GemPathCache> = None;
    insert_cache_entry(&mut cache, "/proj", a, "rake", "/gems/rake-13.0");
    assert_eq!(
        cached_path(&cache, "/proj", b, "rake"),
        Some("/gems/rake-13.0".to_string())
    );
}

#[test]
fn insert_then_lookup_and_drain() {
    let mut cache: Option<GemPathCache> = None;
    let stamp: LockfileMtime = Some((10, 5));
    insert_cache_entry(&mut cache, "/proj", stamp, "rake", "/gems/rake-13.0");
    insert_cache_entry(&mut cache, "/proj", stamp, "rspec", "/gems/rspec-3");
    insert_cache_entry(&mut cache, "/proj", stamp, "rake", "/gems/rake-13.1");
    assert_eq!(
        cached_path(&cache, "/proj", stamp, "rake"),
        Some("/gems/rake-13.1".to_string())
    );
    assert_eq!(cached_path(&cache, "/other", stamp, "rake"), None);
    assert_eq!(cached_path(&cache, "/proj", Some((11, 0)), "rake"), None);
    let mut drained = drain_resolved_paths(&cache);
    drained.sort();
    assert_eq!(
        drained,
        vec![
            ("rake".to_string(), "/gems/rake-13.1".to_string()),
            ("rspec".to_string(), "/gems/rspec-3".to_string()),
        ]
    );
}

#[test]
fn changed_lockfile_resets_cache() {
    let mut cache: Option<GemPathCache> = None;
    insert_cache_entry(&mut cache, "/proj", Some((1, 0)), "rake", "/gems/rake");
    insert_cache_entry(&mut cache, "/proj", Some((2, 0)), "rspec", "/gems/rspec");
    assert_eq!(cached_path(&cache, "/proj", Some((2, 0)), "rake"), None);
    assert_eq!(drain_resolved_paths(&cache).len(), 1);
    assert!(drain_resolved_paths(&None).is_empty());
}

#[test]
fn batch_output_lines() {
    let out = b"rake\t/gems/rake\nnotab\r\nrspec\t/gems/rspec\r\nlast\t/x";
    let parsed = parse_batch_output(out);
    assert_eq!(
        parsed,
        vec![
            (b"rake".to_vec(), b"/gems/rake".to_vec()),
            (b"rspec".to_vec(), b"/gems/rspec".to_vec()),
            (b"last".to_vec(), b"/x".to_vec()),
        ]
    );
}

#[test]
fn disk_cache_stamp() {
    let cache = GemPathDiskCache::new((5, 6, 7), Vec::new());
    assert!(cache.is_current((5, 6, 7)));
    assert!(!cache.is_current((5, 6, 8)));
}

#[test]
fn disk_cache_file_name_uses_sha256_prefix() {
    // sha256("abc") = ba7816bf8f01cfea414140de5dae2223...
    let name = gem_path_disk_cache_file_name(b"abc");
    assert_eq!(String::from_utf8(name).unwrap(), "gem-paths-ba7816bf8f01cfea.json");
}
