use fsindex::alist::AssocList;
use fsindex::persist::{decode_snapshot, encode_snapshot, load_system_cache, save_system_cache};
use fsindex::state::{AppState, CachedPath, FileType, VolumeCache};

fn sample_state() -> AppState {
    let mut state = AppState::default();
    let mut volume: VolumeCache = AssocList::new();
    let mut bucket = Vec::new();
    bucket.push(CachedPath::new("/home/user/readme".to_string(), FileType::File));
    bucket.push(CachedPath::new("/opt/readme".to_string(), FileType::File));
    volume.push("readme".to_string(), bucket);
    let mut dirs = Vec::new();
    dirs.push(CachedPath::new("/home/user/src".to_string(), FileType::Directory));
    volume.push("src".to_string(), dirs);
    state.system_cache.push("/".to_string(), volume);
    let mut other: VolumeCache = AssocList::new();
    let mut b2 = Vec::new();
    b2.push(CachedPath::new("/mnt/data/música.flac".to_string(), FileType::File));
    other.push("música.flac".to_string(), b2);
    state.system_cache.push("/mnt/data".to_string(), other);
    state
}

#[test]
fn save_then_load_round_trips() {
    let state = sample_state();
    let bytes = save_system_cache(&state).expect("compression");
    let mut fresh = AppState::default();
    assert!(load_system_cache(&mut fresh, bytes.as_slice()));

    assert_eq!(fresh.system_cache.len(), 2);
    assert_eq!(fresh.system_cache.key_at(0).as_str(), "/");
    assert_eq!(fresh.system_cache.key_at(1).as_str(), "/mnt/data");
    let volume = fresh.system_cache.get("/").expect("volume");
    let bucket = volume.get("readme").expect("bucket");
    assert_eq!(bucket.len(), 2);
    assert_eq!(bucket[0].file_path, "/home/user/readme");
    assert_eq!(bucket[1].file_path, "/opt/readme");
    assert_eq!(bucket[0].file_type, FileType::File);
    let dirs = volume.get("src").expect("dir bucket");
    assert_eq!(dirs[0].file_type, FileType::Directory);
    let other = fresh.system_cache.get("/mnt/data").expect("second volume");
    assert_eq!(other.get("música.flac").expect("unicode name")[0].file_path, "/mnt/data/música.flac");
}

#[test]
fn malformed_bytes_load_nothing() {
    let mut state = AppState::default();
    assert!(!load_system_cache(&mut state, b"not a snapshot at all"));
    assert!(!load_system_cache(&mut state, &[]));
    assert_eq!(state.system_cache.len(), 0);
}

#[test]
fn truncated_snapshot_decodes_to_nothing() {
    let state = sample_state();
    let plain = encode_snapshot(&state.system_cache);
    assert!(decode_snapshot(plain.as_slice()).is_some());
    let truncated = &plain[..plain.len() - 3];
    assert!(decode_snapshot(truncated).is_none());
    let mut wrong_version = plain.clone();
    wrong_version[0] = 99;
    assert!(decode_snapshot(wrong_version.as_slice()).is_none());
    let mut trailing = plain.clone();
    trailing.push(0);
    assert!(decode_snapshot(trailing.as_slice()).is_none());
}

#[test]
fn empty_cache_round_trips() {
    let state = AppState::default();
    let bytes = save_system_cache(&state).expect("compression");
    let mut fresh = AppState::default();
    assert!(load_system_cache(&mut fresh, bytes.as_slice()));
    assert_eq!(fresh.system_cache.len(), 0);
}
