use game_translator::cache::TranslationCache;
use game_translator::json::{cache_from_json, cache_to_json};

#[test]
fn cache_insert_get_contains() {
    let mut c = TranslationCache::new();
    assert_eq!(c.len(), 0);
    assert!(!c.contains(&"Hello".to_string()));
    c.insert("Hello".to_string(), "こんにちは".to_string());
    assert_eq!(c.len(), 1);
    assert!(c.contains(&"Hello".to_string()));
    assert_eq!(c.get(&"Hello".to_string()), Some(&"こんにちは".to_string()));
    assert_eq!(c.get(&"hello".to_string()), None);
    assert_eq!(c.get(&"Hello ".to_string()), None);
}

#[test]
fn cache_insert_replaces_existing_key() {
    let mut c = TranslationCache::new();
    c.insert("k".to_string(), "v1".to_string());
    c.insert("k".to_string(), "v2".to_string());
    assert_eq!(c.len(), 1);
    assert_eq!(c.get(&"k".to_string()), Some(&"v2".to_string()));
}

#[test]
fn cache_round_trip_single_pair() {
    let mut c = TranslationCache::new();
    c.insert("Hello".to_string(), "こんにちは".to_string());
    let text = cache_to_json(&c);
    let reloaded = cache_from_json(&text);
    assert_eq!(reloaded.len(), 1);
    assert_eq!(reloaded.get(&"Hello".to_string()), Some(&"こんにちは".to_string()));
}

#[test]
fn cache_round_trip_many_pairs_and_specials() {
    let mut c = TranslationCache::new();
    c.insert("plain".to_string(), "text".to_string());
    c.insert("with \"quotes\"".to_string(), "and \\ backslash".to_string());
    c.insert("line\nbreak\ttab".to_string(), "control\u{1}char".to_string());
    c.insert("日本語キー".to_string(), "値".to_string());
    let text = cache_to_json(&c);
    let reloaded = cache_from_json(&text);
    assert_eq!(reloaded.len(), 4);
    assert_eq!(reloaded.get(&"plain".to_string()), Some(&"text".to_string()));
    assert_eq!(
        reloaded.get(&"with \"quotes\"".to_string()),
        Some(&"and \\ backslash".to_string())
    );
    assert_eq!(
        reloaded.get(&"line\nbreak\ttab".to_string()),
        Some(&"control\u{1}char".to_string())
    );
    assert_eq!(reloaded.get(&"日本語キー".to_string()), Some(&"値".to_string()));
}

#[test]
fn writer_emits_compact_object() {
    let mut c = TranslationCache::new();
    c.insert("a".to_string(), "b".to_string());
    c.insert("c\n".to_string(), "d\"e".to_string());
    let text = cache_to_json(&c);
    assert_eq!(text, "{\"a\":\"b\",\"c\\n\":\"d\\\"e\"}");
    let empty = TranslationCache::new();
    assert_eq!(cache_to_json(&empty), "{}");
}

#[test]
fn reader_takes_whitespace_and_escapes() {
    let c = cache_from_json(" { \"a\" : \"b\" , \"u\" : \"\\u0041\\u000a\" } ");
    assert_eq!(c.len(), 2);
    assert_eq!(c.get(&"a".to_string()), Some(&"b".to_string()));
    assert_eq!(c.get(&"u".to_string()), Some(&"A\n".to_string()));
}

#[test]
fn reader_keeps_last_of_duplicate_keys() {
    let c = cache_from_json("{\"k\":\"v1\",\"k\":\"v2\"}");
    assert_eq!(c.len(), 1);
    assert_eq!(c.get(&"k".to_string()), Some(&"v2".to_string()));
}

#[test]
fn reader_starts_empty_on_corrupt_store() {
    assert_eq!(cache_from_json("").len(), 0);
    assert_eq!(cache_from_json("not json").len(), 0);
    assert_eq!(cache_from_json("{\"a\":\"b\"").len(), 0);
    assert_eq!(cache_from_json("{\"a\":1}").len(), 0);
    assert_eq!(cache_from_json("{\"a\":\"b\"} trailing").len(), 0);
    assert_eq!(cache_from_json("{\"a\":\"\\u3053\"}").len(), 0);
    assert_eq!(cache_from_json("[\"a\"]").len(), 0);
}
