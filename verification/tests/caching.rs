use flight_radar::caching::{cache_key_of, FilesystemCache};
use std::cell::Cell;

fn identity(payload: &String) -> String {
    payload.clone()
}

#[test]
fn cache_key_replaces_what_is_not_alphanumeric() {
    let cache = FilesystemCache::new(identity);
    assert_eq!(cache.cache_key("https://x.y/z"), "https---x-y-z");
}

#[test]
fn cache_key_is_the_same_for_the_same_input() {
    let cache = FilesystemCache::new(identity);
    let other = FilesystemCache::new_from_location("elsewhere", identity);
    assert_eq!(cache.cache_key("a/b?c=1"), cache.cache_key("a/b?c=1"));
    assert_eq!(cache.cache_key("a/b?c=1"), other.cache_key("a/b?c=1"));
    assert_eq!(cache.cache_key("a/b?c=1"), cache_key_of("a/b?c=1"));
}

#[test]
fn cache_key_of_a_key_is_that_key() {
    let cache = FilesystemCache::new(identity);
    let once = cache.cache_key("https://opensky-network.org/api/states/all");
    assert_eq!(once, "https---opensky-network-org-api-states-all");
    assert_eq!(cache.cache_key(&once), once);
    assert_eq!(cache.cache_key("Already-Normal-123"), "Already-Normal-123");
}

#[test]
fn cache_key_keeps_the_number_of_characters() {
    let cache = FilesystemCache::new(identity);
    assert_eq!(cache.cache_key(""), "");
    assert_eq!(cache.cache_key("a\u{e9}_ Z9"), "a---Z9");
    assert_eq!(cache.cache_key("\u{4e16}\u{754c}"), "--");
}

#[test]
fn distinct_inputs_may_share_a_key() {
    let cache = FilesystemCache::new(identity);
    assert_eq!(cache.cache_key("a/b"), cache.cache_key("a:b"));
}

#[test]
fn durable_path_joins_root_and_key() {
    let cache = FilesystemCache::new_from_location("store/root", identity);
    assert_eq!(cache.cache_path(&"some-key".to_string()), "store/root/some-key");
    let default = FilesystemCache::new(identity);
    assert_eq!(default.cache_path(&"k".to_string()), "cache/k");
}

#[test]
fn first_get_reads_and_decodes_and_later_gets_do_not_read() {
    let reads = Cell::new(0);
    let mut cache = FilesystemCache::new_from_location("root", |p: &String| p.len());
    let key = "k1".to_string();
    let first: Result<usize, String> = cache.get(&key, |path: &String| {
        reads.set(reads.get() + 1);
        assert_eq!(path, "root/k1");
        Ok("payload".to_string())
    });
    assert_eq!(first, Ok(7));
    let second: Result<usize, String> = cache.get(&key, |_path: &String| {
        reads.set(reads.get() + 1);
        Ok("another payload".to_string())
    });
    assert_eq!(second, Ok(7));
    assert_eq!(reads.get(), 1);
}

#[test]
fn failed_read_is_handed_on_and_not_remembered() {
    let mut cache = FilesystemCache::new(identity);
    let key = "missing".to_string();
    let failed: Result<String, String> = cache.get(&key, |_p: &String| Err("not found".to_string()));
    assert_eq!(failed, Err("not found".to_string()));
    let retried: Result<String, String> = cache.get(&key, |p: &String| Ok(format!("read {}", p)));
    assert_eq!(retried, Ok("read cache/missing".to_string()));
}

#[test]
fn keys_are_kept_apart() {
    let mut cache = FilesystemCache::new(identity);
    let a: Result<String, ()> = cache.get(&"a".to_string(), |_p: &String| Ok("A".to_string()));
    let b: Result<String, ()> = cache.get(&"b".to_string(), |_p: &String| Ok("B".to_string()));
    let a_again: Result<String, ()> = cache.get(&"a".to_string(), |_p: &String| Err(()));
    assert_eq!(a, Ok("A".to_string()));
    assert_eq!(b, Ok("B".to_string()));
    assert_eq!(a_again, Ok("A".to_string()));
}

#[test]
fn keep_stores_a_payload_and_hands_on_an_error() {
    let mut cache = FilesystemCache::new(|p: &String| p.to_uppercase());
    let key = "k".to_string();
    let failed: Result<String, u8> = cache.keep(&key, Err(3));
    assert_eq!(failed, Err(3));
    let kept: Result<String, u8> = cache.keep(&key, Ok("abc".to_string()));
    assert_eq!(kept, Ok("ABC".to_string()));
    let held: Result<String, u8> = cache.get(&key, |_p: &String| Err(9));
    assert_eq!(held, Ok("ABC".to_string()));
}
