use rfortune::config::{cache_path_for_stem, get_cache_path, old_config_path};
use rfortune::store::{decimal_string, retry_rename_after_remove, temp_store_path};

#[test]
fn temp_path_sits_beside_store() {
    assert_eq!(
        temp_store_path("/d/cache/last_quotes.json", 1700000000123),
        "/d/cache/last_quotes.json.tmp.1700000000123"
    );
    assert_eq!(temp_store_path("s.json", 0), "s.json.tmp.0");
}

#[test]
fn decimal_rendering() {
    assert_eq!(decimal_string(0), "0");
    assert_eq!(decimal_string(7), "7");
    assert_eq!(decimal_string(10), "10");
    assert_eq!(decimal_string(906), "906");
    assert_eq!(decimal_string(u64::MAX), u64::MAX.to_string());
}

#[test]
fn rename_retry_only_where_replace_fails_and_store_exists() {
    assert!(retry_rename_after_remove(true, true));
    assert!(!retry_rename_after_remove(true, false));
    assert!(!retry_rename_after_remove(false, true));
    assert!(!retry_rename_after_remove(false, false));
}

#[test]
fn legacy_cache_path_uses_file_stem() {
    assert_eq!(get_cache_path("/app", "/x/y/notes.txt"), "/app/cache/notes.cache");
    assert_eq!(get_cache_path("/app", "fortunes"), "/app/cache/fortunes.cache");
    assert_eq!(get_cache_path("/app", "/x/archive.tar.gz"), "/app/cache/archive.tar.cache");
    assert_eq!(get_cache_path("/app", "/"), "/app/cache/.cache");
    assert_eq!(cache_path_for_stem("/app/", "s"), "/app/cache/s.cache");
}

#[test]
fn old_config_lives_in_app_dir() {
    assert_eq!(old_config_path("/app"), "/app/config.yaml");
}
