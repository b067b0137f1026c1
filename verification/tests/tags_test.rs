use fsindex::tags::{TagCache, TagDoc};

fn doc(uuid: &str, path: &str) -> TagDoc {
    TagDoc {
        uuid: uuid.to_string(),
        file_paths: vec![path.to_string()],
        identifier: format!("id-{}", uuid),
        color_hex: "#ff8800".to_string(),
    }
}

#[test]
fn full_cache_evicts_least_recently_used() {
    let mut cache = TagCache::new(2);
    cache.insert("work".to_string(), vec![doc("1", "/w")]);
    cache.insert("home".to_string(), vec![doc("2", "/h")]);
    cache.insert("music".to_string(), vec![doc("3", "/m")]);
    assert!(cache.get(&"work".to_string()).is_none());
    assert!(cache.get(&"home".to_string()).is_some());
    assert!(cache.get(&"music".to_string()).is_some());
}

#[test]
fn get_promotes_to_most_recently_used() {
    let mut cache = TagCache::new(2);
    cache.insert("work".to_string(), vec![doc("1", "/w")]);
    cache.insert("home".to_string(), vec![doc("2", "/h")]);
    assert!(cache.get(&"work".to_string()).is_some());
    cache.insert("music".to_string(), vec![doc("3", "/m")]);
    assert!(cache.get(&"home".to_string()).is_none());
    assert!(cache.get(&"work".to_string()).is_some());
}

#[test]
fn insert_updates_existing_key() {
    let mut cache = TagCache::new(2);
    cache.insert("work".to_string(), vec![doc("1", "/w")]);
    cache.insert("work".to_string(), vec![doc("9", "/w2")]);
    let docs = cache.get(&"work".to_string()).expect("present");
    assert_eq!(docs.len(), 1);
    assert_eq!(docs[0].uuid, "9");
    assert_eq!(docs[0].file_paths, vec!["/w2"]);
}

#[test]
fn tags_lists_most_recent_first() {
    let mut cache = TagCache::new(3);
    cache.insert("a".to_string(), vec![doc("1", "/a")]);
    cache.insert("b".to_string(), vec![doc("2", "/b")]);
    cache.insert("c".to_string(), vec![doc("3", "/c")]);
    assert_eq!(cache.tags(), vec!["c", "b", "a"]);
}

#[test]
fn tag_snapshot_round_trips_with_order() {
    let mut cache = TagCache::new(4);
    cache.insert("a".to_string(), vec![doc("1", "/a")]);
    cache.insert("b".to_string(), vec![doc("2", "/b"), doc("3", "/b2")]);
    cache.insert("c".to_string(), vec![]);
    let bytes = cache.save_to_disk().expect("compression");
    let mut loaded = TagCache::load_from_disk(bytes.as_slice(), 4).expect("snapshot");
    assert_eq!(loaded.tags(), vec!["c", "b", "a"]);
    let b_docs = loaded.get(&"b".to_string()).expect("docs");
    assert_eq!(b_docs.len(), 2);
    assert_eq!(b_docs[0].uuid, "2");
    assert_eq!(b_docs[1].uuid, "3");
    assert_eq!(b_docs[1].file_paths, vec!["/b2"]);
    assert_eq!(b_docs[0].identifier, "id-2");
    assert_eq!(b_docs[0].color_hex, "#ff8800");
}

#[test]
fn loading_into_smaller_capacity_keeps_recent_entries() {
    let mut cache = TagCache::new(3);
    cache.insert("old".to_string(), vec![doc("1", "/o")]);
    cache.insert("mid".to_string(), vec![doc("2", "/m")]);
    cache.insert("new".to_string(), vec![doc("3", "/n")]);
    let bytes = cache.save_to_disk().expect("compression");
    let mut loaded = TagCache::load_from_disk(bytes.as_slice(), 2).expect("snapshot");
    assert!(loaded.get(&"old".to_string()).is_none());
    assert!(loaded.get(&"mid".to_string()).is_some());
    assert!(loaded.get(&"new".to_string()).is_some());
}

#[test]
fn malformed_tag_bytes_load_nothing() {
    assert!(TagCache::load_from_disk(b"garbage", 2).is_none());
    assert!(TagCache::load_from_disk(&[], 2).is_none());
}
