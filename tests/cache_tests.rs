use rfortune::store::{merge_quote, read_quote, CacheError, QuoteCache};

#[test]
fn cache_write_read_roundtrip() {
    let key = "/tmp/rfortune_test/source.dat";
    let quote = "This is a test quote";
    let written = merge_quote("", key, quote);
    let loaded = read_quote(&written, key).expect("load_last_cache failed");
    assert_eq!(loaded, quote);
}

#[test]
fn second_write_keeps_first_key() {
    let first = merge_quote("", "/a.dat", "Quote A");
    let second = merge_quote(&first, "/b.dat", "Quote B");
    assert_eq!(read_quote(&second, "/a.dat").unwrap(), "Quote A");
    assert_eq!(read_quote(&second, "/b.dat").unwrap(), "Quote B");
}

#[test]
fn rewrite_replaces_the_entry() {
    let first = merge_quote("", "/a.dat", "old");
    let second = merge_quote(&first, "/a.dat", "new");
    assert_eq!(read_quote(&second, "/a.dat").unwrap(), "new");
}

#[test]
fn missing_key_is_not_found() {
    let text = merge_quote("", "/a.dat", "Quote A");
    assert_eq!(read_quote(&text, "/b.dat"), Err(CacheError::NotFound));
}

#[test]
fn empty_and_malformed_store_is_not_found() {
    assert_eq!(read_quote("", "/a.dat"), Err(CacheError::NotFound));
    assert_eq!(read_quote("{not json", "/a.dat"), Err(CacheError::NotFound));
    assert_eq!(read_quote("[1, 2]", "/a.dat"), Err(CacheError::NotFound));
}

#[test]
fn malformed_store_is_replaced_on_write() {
    let text = merge_quote("{broken", "/a.dat", "Quote A");
    assert_eq!(read_quote(&text, "/a.dat").unwrap(), "Quote A");
}

#[test]
fn store_written_by_hand_is_read() {
    let text = "{\"/x.dat\": \"Line one\\nLine two\", \"/y.dat\": \"Y\"}";
    assert_eq!(read_quote(text, "/x.dat").unwrap(), "Line one\nLine two");
    let merged = merge_quote(text, "/z.dat", "Z");
    assert_eq!(read_quote(&merged, "/y.dat").unwrap(), "Y");
    assert!(merged.contains("\"/z.dat\": \"Z\""));
}

#[test]
fn quote_cache_insert_and_get() {
    let mut c = QuoteCache::new();
    assert_eq!(c.get("/k"), None);
    c.insert("/k", "v1");
    c.insert("/j", "w");
    c.insert("/k", "v2");
    assert_eq!(c.get("/k"), Some("v2".to_string()));
    assert_eq!(c.get("/j"), Some("w".to_string()));
    let back = QuoteCache::from_json(&c.to_json());
    assert_eq!(back.get("/k"), Some("v2".to_string()));
}

#[test]
fn test_cache_read_write() {
    let key = "/tmp/test_cache_source.fort";
    let quote = "Hello Cache";
    let written = merge_quote("", key, quote);
    let loaded = read_quote(&written, key).expect("failed to load cache");
    assert_eq!(loaded, quote);
}
