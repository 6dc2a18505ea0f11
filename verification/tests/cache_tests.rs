use cos_fuse_demo::cache::{Cache, CacheError};
use cos_fuse_demo::cos_client::ObjectMeta;
use std::path::Path;
use std::time::SystemTime;
use tempfile::TempDir;

fn meta(key: &str, size: u64) -> ObjectMeta {
    ObjectMeta {
        key: key.to_string(),
        size,
        last_modified: SystemTime::UNIX_EPOCH,
        etag: format!("etag-{}", key),
        content_type: None,
    }
}

#[test]
fn test_cache_creation() {
    let temp_dir = TempDir::new().unwrap();
    let cache = Cache::new(temp_dir.path().to_str().unwrap(), 100).unwrap();
    assert!(Path::new(cache.cache_dir()).exists());
}

#[test]
fn test_metadata_cache() {
    let temp_dir = TempDir::new().unwrap();
    let mut cache = Cache::new(temp_dir.path().to_str().unwrap(), 100).unwrap();

    let meta = ObjectMeta {
        key: "test.txt".to_string(),
        size: 100,
        last_modified: std::time::SystemTime::now(),
        etag: "test-etag".to_string(),
        content_type: Some("text/plain".to_string()),
    };

    cache.set_metadata("test.txt".to_string(), meta.clone());
    let cached_meta = cache.get_metadata("test.txt");
    assert!(cached_meta.is_some());
    assert_eq!(cached_meta.unwrap().size, 100);
}

#[test]
fn content_path_lies_in_the_cache_directory() {
    let temp_dir = TempDir::new().unwrap();
    let cache = Cache::new(temp_dir.path().to_str().unwrap(), 100).unwrap();
    let path = cache.get_content_cache_path("test/file.txt");
    assert_eq!(Path::new(&path), temp_dir.path().join("test_file.txt.cache"));
    assert_eq!(Path::new(&path).parent(), Some(temp_dir.path()));
}

#[test]
fn zero_capacity_is_refused() {
    let r = Cache::new("cache-dir", 0);
    assert!(matches!(r, Err(CacheError::InvalidCacheSize)));
}

#[test]
fn capacity_of_one_is_accepted() {
    let mut cache = Cache::new("cache-dir", 1).unwrap();
    cache.set_metadata("a".to_string(), meta("a", 1));
    cache.set_metadata("b".to_string(), meta("b", 2));
    assert!(cache.get_metadata("a").is_none());
    assert_eq!(cache.get_metadata("b").unwrap().size, 2);
}

#[test]
fn stored_metadata_comes_back_whole() {
    let mut cache = Cache::new("cache-dir", 4).unwrap();
    let now = SystemTime::now();
    let stored = ObjectMeta {
        key: "dir/b.txt".to_string(),
        size: 13,
        last_modified: now,
        etag: "\"abc\"".to_string(),
        content_type: Some("text/plain".to_string()),
    };
    cache.set_metadata("dir/b.txt".to_string(), stored);
    let found = cache.get_metadata("dir/b.txt").unwrap();
    assert_eq!(found.key, "dir/b.txt");
    assert_eq!(found.size, 13);
    assert_eq!(found.last_modified, now);
    assert_eq!(found.etag, "\"abc\"");
    assert_eq!(found.content_type, Some("text/plain".to_string()));
}

#[test]
fn missing_key_yields_nothing() {
    let mut cache = Cache::new("cache-dir", 4).unwrap();
    cache.set_metadata("a".to_string(), meta("a", 1));
    assert!(cache.get_metadata("b").is_none());
}

#[test]
fn storing_again_replaces_the_value() {
    let mut cache = Cache::new("cache-dir", 2).unwrap();
    cache.set_metadata("a".to_string(), meta("a", 1));
    cache.set_metadata("a".to_string(), meta("a", 7));
    assert_eq!(cache.get_metadata("a").unwrap().size, 7);
    assert_eq!(cache.get_stats(0).metadata_cache_size, 1);
}

#[test]
fn oldest_entry_leaves_a_full_cache() {
    let mut cache = Cache::new("cache-dir", 2).unwrap();
    cache.set_metadata("a".to_string(), meta("a", 1));
    cache.set_metadata("b".to_string(), meta("b", 2));
    cache.set_metadata("c".to_string(), meta("c", 3));
    assert!(cache.get_metadata("a").is_none());
    assert_eq!(cache.get_metadata("b").unwrap().size, 2);
    assert_eq!(cache.get_metadata("c").unwrap().size, 3);
}

#[test]
fn reading_an_entry_keeps_it_from_leaving() {
    let mut cache = Cache::new("cache-dir", 2).unwrap();
    cache.set_metadata("a".to_string(), meta("a", 1));
    cache.set_metadata("b".to_string(), meta("b", 2));
    assert!(cache.get_metadata("a").is_some());
    cache.set_metadata("c".to_string(), meta("c", 3));
    assert_eq!(cache.get_metadata("a").unwrap().size, 1);
    assert!(cache.get_metadata("b").is_none());
    assert_eq!(cache.get_metadata("c").unwrap().size, 3);
}

#[test]
fn clear_empties_the_metadata_tier() {
    let mut cache = Cache::new("cache-dir", 3).unwrap();
    cache.set_metadata("a".to_string(), meta("a", 1));
    cache.set_metadata("b".to_string(), meta("b", 2));
    assert_eq!(cache.get_stats(0).metadata_cache_size, 2);
    cache.clear();
    assert_eq!(cache.get_stats(0).metadata_cache_size, 0);
    assert!(cache.get_metadata("a").is_none());
    assert!(cache.get_metadata("b").is_none());
    cache.set_metadata("a".to_string(), meta("a", 5));
    assert_eq!(cache.get_metadata("a").unwrap().size, 5);
}

#[test]
fn stats_count_both_tiers() {
    let mut cache = Cache::new("cache-dir", 3).unwrap();
    let empty = cache.get_stats(0);
    assert_eq!(empty.metadata_cache_size, 0);
    assert_eq!(empty.content_cache_size, 0);
    cache.set_metadata("a".to_string(), meta("a", 1));
    let stats = cache.get_stats(9);
    assert_eq!(stats.metadata_cache_size, 1);
    assert_eq!(stats.content_cache_size, 9);
}

#[test]
fn content_path_replaces_separators() {
    let cache = Cache::new("/tmp/cosfs_cache", 10).unwrap();
    assert_eq!(cache.get_content_cache_path("test/file.txt"), "/tmp/cosfs_cache/test_file.txt.cache");
    assert_eq!(cache.get_content_cache_path("a\\b/c"), "/tmp/cosfs_cache/a_b_c.cache");
    assert_eq!(cache.get_content_cache_path("plain"), "/tmp/cosfs_cache/plain.cache");
    assert_eq!(cache.get_content_cache_path(""), "/tmp/cosfs_cache/.cache");
}

#[test]
fn content_path_joins_as_paths_do() {
    let with_slash = Cache::new("/var/cache/", 10).unwrap();
    assert_eq!(with_slash.get_content_cache_path("k"), "/var/cache/k.cache");
    let empty = Cache::new("", 10).unwrap();
    assert_eq!(empty.get_content_cache_path("k"), "k.cache");
    let relative = Cache::new("cache", 10).unwrap();
    assert_eq!(relative.get_content_cache_path("dir/k"), "cache/dir_k.cache");
    assert_eq!(
        Path::new("cache").join("dir_k.cache").to_str().unwrap(),
        relative.get_content_cache_path("dir/k")
    );
}

#[test]
fn content_path_keeps_other_characters() {
    let cache = Cache::new("d", 10).unwrap();
    assert_eq!(cache.get_content_cache_path("日本/語.txt"), "d/日本_語.txt.cache");
}
