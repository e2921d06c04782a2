use autorec::songrec_cache::{append_to_cache, cache_key, hash_bytes, load_cache, lookup, lookup_key};

#[test]
fn fnv1a_of_known_inputs() {
    assert_eq!(hash_bytes(&Vec::new()), "cbf29ce484222325");
    assert_eq!(hash_bytes(&b"a".to_vec()), "af63dc4c8601ec8c");
    assert_eq!(hash_bytes(&b"foobar".to_vec()), "85944171f73967e8");
    assert_eq!(cache_key(&b"foobar".to_vec()), "85944171f73967e8");
    assert_eq!(hash_bytes(&vec![0u8; 1000]).len(), 16);
}

#[test]
fn cached_response_is_found_again() {
    let json = "{\n  \"track\": {\r\n    \"title\": \"x y\"\n  }\n}";
    let key = hash_bytes(&b"segment".to_vec());
    let mut file = String::from("0123456789abcdef {\"old\":1}\n");
    file.push_str(&append_to_cache(&key, json));
    let cache = load_cache(&file);
    assert_eq!(cache.len(), 2);
    let stored = "{   \"track\": {     \"title\": \"x y\"   } }";
    assert_eq!(lookup_key(&cache, &key), Some(stored.to_string()));
    assert_eq!(lookup(&b"segment".to_vec(), &cache), Some(stored.to_string()));
    assert_eq!(lookup(&b"other".to_vec(), &cache), None);
    assert_eq!(lookup_key(&cache, "0123456789abcdef"), Some("{\"old\":1}".to_string()));
    // Caching what was read back changes nothing.
    assert_eq!(append_to_cache(&key, stored), format!("{} {}\n", key, stored));
}

#[test]
fn later_entries_and_broken_lines() {
    let file = "k1 first\nno-space-here\nk2 second value\nk1 third\n\nk3 trunc";
    let cache = load_cache(file);
    assert_eq!(
        cache,
        vec![
            ("k1".to_string(), "first".to_string()),
            ("k2".to_string(), "second value".to_string()),
            ("k1".to_string(), "third".to_string()),
        ]
    );
    assert_eq!(lookup_key(&cache, "k1"), Some("third".to_string()));
    assert_eq!(lookup_key(&cache, "k3"), None);
    assert!(load_cache("").is_empty());
    assert!(load_cache("k v").is_empty());
    assert_eq!(load_cache("k \n"), vec![("k".to_string(), String::new())]);
    assert_eq!(load_cache(" v\n"), vec![(String::new(), "v".to_string())]);
}
