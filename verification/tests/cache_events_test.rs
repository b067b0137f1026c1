use fsindex::alist::AssocList;
use fsindex::cache::{CreateKind, FsEvent, FsEventHandler};
use fsindex::state::{get_volume_for_path, AppState, CachedPath, FileType, VolumeCache};

fn state_with_two_paths() -> AppState {
    let mut state = AppState::default();
    let mut volume: VolumeCache = AssocList::new();
    let mut bucket = Vec::new();
    bucket.push(CachedPath::new("/a/report".to_string(), FileType::File));
    bucket.push(CachedPath::new("/b/report".to_string(), FileType::File));
    volume.push("report".to_string(), bucket);
    let mut single = Vec::new();
    single.push(CachedPath::new("/a/lonely".to_string(), FileType::File));
    volume.push("lonely".to_string(), single);
    state.system_cache.push("/".to_string(), volume);
    state
}

#[test]
fn delete_with_two_paths_removes_only_target() {
    let mut state = state_with_two_paths();
    let handler = FsEventHandler::new("/".to_string());
    handler.handle_delete(&mut state, "/a/report");
    let volume = handler.get_from_cache(&state).expect("volume");
    let bucket = volume.get("report").expect("filename stays");
    assert_eq!(bucket.len(), 1);
    assert_eq!(bucket[0].file_path, "/b/report");
}

#[test]
fn delete_with_one_path_removes_key() {
    let mut state = state_with_two_paths();
    let handler = FsEventHandler::new("/".to_string());
    handler.handle_delete(&mut state, "/a/lonely");
    let volume = handler.get_from_cache(&state).expect("volume");
    assert!(volume.get("lonely").is_none());
    assert!(volume.get("report").is_some());
}

#[test]
fn rename_moves_filename() {
    let mut state = state_with_two_paths();
    let handler = FsEventHandler::new("/".to_string());
    handler.handle_rename_from(&mut state, "/a/lonely");
    handler.handle_rename_to(&mut state, "/a/renamed", false);
    let volume = handler.get_from_cache(&state).expect("volume");
    assert!(volume.get("lonely").is_none());
    let bucket = volume.get("renamed").expect("destination present");
    assert_eq!(bucket.len(), 1);
    assert_eq!(bucket[0].file_path, "/a/renamed");
    assert_eq!(bucket[0].file_type, FileType::File);
}

#[test]
fn create_first_writer_wins() {
    let mut state = state_with_two_paths();
    let handler = FsEventHandler::new("/".to_string());
    handler.handle_create(&mut state, CreateKind::File, "/elsewhere/report");
    let volume = handler.get_from_cache(&state).expect("volume");
    let bucket = volume.get("report").expect("filename");
    assert_eq!(bucket.len(), 2);
    handler.handle_create(&mut state, CreateKind::Folder, "/a/fresh");
    let volume = handler.get_from_cache(&state).expect("volume");
    let fresh = volume.get("fresh").expect("new filename");
    assert_eq!(fresh.len(), 1);
    assert_eq!(fresh[0].file_type, FileType::Directory);
}

#[test]
fn unknown_mountpoint_is_ignored() {
    let mut state = state_with_two_paths();
    let handler = FsEventHandler::new("/elsewhere".to_string());
    assert!(handler.get_from_cache(&state).is_none());
    handler.handle_delete(&mut state, "/a/report");
    let known = FsEventHandler::new("/".to_string());
    let volume = known.get_from_cache(&state).expect("volume untouched");
    assert_eq!(volume.get("report").expect("still there").len(), 2);
}

#[test]
fn events_dispatch_to_mutations() {
    let mut state = state_with_two_paths();
    let handler = FsEventHandler::new("/".to_string());
    handler.handle_event(&mut state, FsEvent::Remove("/a/lonely".to_string()));
    handler.handle_event(
        &mut state,
        FsEvent::Create(CreateKind::File, "/a/created".to_string()),
    );
    handler.handle_event(&mut state, FsEvent::Other);
    let volume = handler.get_from_cache(&state).expect("volume");
    assert!(volume.get("lonely").is_none());
    assert!(volume.get("created").is_some());
}

#[test]
fn volume_for_path_finds_owner() {
    let state = state_with_two_paths();
    let found = get_volume_for_path(&state, "/b/report").expect("owner volume");
    assert_eq!(found, "/");
    assert!(get_volume_for_path(&state, "/nowhere").is_none());
}
