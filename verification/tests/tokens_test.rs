use fsindex::alist::AssocList;
use fsindex::state::{AppState, CachedPath, FileType, VolumeCache};
use fsindex::tokens::{build_token_index, build_token_index_root, tokenize};

fn volume_with(names: &[&str]) -> VolumeCache {
    let mut v: VolumeCache = AssocList::new();
    for name in names {
        let mut bucket = Vec::new();
        bucket.push(CachedPath::new(format!("/{}", name), FileType::File));
        v.push((*name).to_string(), bucket);
    }
    v
}

#[test]
fn tokenize_snake_and_digits() {
    let toks = tokenize("My_File2.txt");
    assert_eq!(toks, vec!["my", "file", "2", "txt"]);
}

#[test]
fn tokenize_camel_case() {
    let toks = tokenize("MyFile_v2.txt");
    assert_eq!(toks, vec!["my", "file", "v", "2", "txt"]);
}

#[test]
fn tokenize_empty_and_separators() {
    assert!(tokenize("").is_empty());
    assert!(tokenize("...___").is_empty());
    assert_eq!(tokenize("hello"), vec!["hello"]);
    assert_eq!(tokenize("HTML"), vec!["html"]);
}

#[test]
fn index_buckets_hold_filenames() {
    let v = volume_with(&["notes.txt", "notes.md"]);
    let idx = build_token_index(&v);
    let bucket = idx.get("notes").expect("token should be indexed");
    assert_eq!(bucket.len(), 2);
    assert_eq!(bucket[0], "notes.txt");
    assert_eq!(bucket[1], "notes.md");
    let txt = idx.get("txt").expect("txt token");
    assert_eq!(txt.len(), 1);
    assert_eq!(txt[0], "notes.txt");
}

#[test]
fn rebuild_gives_same_sets() {
    let mut state = AppState::default();
    state.system_cache.push("/".to_string(), volume_with(&["alpha_one", "beta_two"]));
    build_token_index_root(&mut state);
    let mut names_first: Vec<String> = Vec::new();
    for i in 0..state.token_cache.len() {
        names_first.push(state.token_cache.key_at(i).clone());
    }
    build_token_index_root(&mut state);
    let mut names_second: Vec<String> = Vec::new();
    for i in 0..state.token_cache.len() {
        names_second.push(state.token_cache.key_at(i).clone());
    }
    assert_eq!(names_first, names_second);
    for name in &names_first {
        let a = state.token_cache.get(name.as_str()).unwrap().clone();
        assert!(!a.is_empty());
    }
}
