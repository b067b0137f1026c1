use fsindex::alist::AssocList;
use fsindex::describe::get_file_description;
use fsindex::search::{score_filename, search_directory, SearchResult};
use fsindex::state::{AppState, CachedPath, FileType, VolumeCache};
use fsindex::strutil::{file_name_of, get_extension, is_hidden};
use fsindex::tokens::build_token_index_root;

fn state_with_files(files: &[(&str, &str, FileType)]) -> AppState {
    let mut state = AppState::default();
    let mut volume: VolumeCache = AssocList::new();
    for (name, path, ft) in files {
        let mut bucket = Vec::new();
        bucket.push(CachedPath::new((*path).to_string(), *ft));
        volume.push((*name).to_string(), bucket);
    }
    state.system_cache.push("/".to_string(), volume);
    build_token_index_root(&mut state);
    state
}

fn search(state: &AppState, query: &str, files: bool, dirs: bool) -> SearchResult {
    search_directory(state, query, "/", files, dirs)
}

#[test]
fn exact_match_ranks_first() {
    let state = state_with_files(&[
        ("readme_old.txt", "/docs/readme_old.txt", FileType::File),
        ("readme", "/docs/readme", FileType::File),
    ]);
    let r = search(&state, "readme", true, true);
    assert!(r.results.len() >= 2);
    assert_eq!(r.results[0].name, "readme");
    assert_eq!(r.results[0].score, 1000);
    assert!(r.results[1].score < 1000);
    assert!(!r.more);
}

#[test]
fn over_five_hundred_results_are_capped() {
    let mut files: Vec<(String, String)> = Vec::new();
    for i in 0..501 {
        files.push((format!("file{:03}", i), format!("/bulk/file{:03}", i)));
    }
    let borrowed: Vec<(&str, &str, FileType)> = files
        .iter()
        .map(|(n, p)| (n.as_str(), p.as_str(), FileType::File))
        .collect();
    let state = state_with_files(&borrowed);
    let r = search(&state, "file", true, true);
    assert_eq!(r.results.len(), 500);
    assert!(r.more);
}

#[test]
fn junk_names_never_match() {
    let state = state_with_files(&[
        ("com.vendor.app", "/sys/com.vendor.app", FileType::File),
        ("plain_com", "/data/plain_com", FileType::File),
    ]);
    let r = search(&state, "com", true, true);
    for item in &r.results {
        assert_eq!(item.name, "plain_com");
    }
}

#[test]
fn query_extension_filters_candidates() {
    let state = state_with_files(&[
        ("notes.txt", "/docs/notes.txt", FileType::File),
        ("notes.md", "/docs/notes.md", FileType::File),
    ]);
    let r = search(&state, "notes.txt", true, true);
    assert!(!r.results.is_empty());
    for item in &r.results {
        assert_eq!(item.name, "notes.txt");
    }
}

#[test]
fn hidden_entries_are_rejected() {
    let state = state_with_files(&[
        (".config", "/home/.config", FileType::File),
        ("config", "/home/config", FileType::File),
    ]);
    let r = search(&state, "config", true, true);
    assert!(!r.results.is_empty());
    for item in &r.results {
        assert_eq!(item.name, "config");
    }
}

#[test]
fn accept_flags_exclude_kinds() {
    let state = state_with_files(&[
        ("target", "/proj/target", FileType::Directory),
        ("target.rs", "/proj/target.rs", FileType::File),
    ]);
    let only_files = search(&state, "target", true, false);
    for item in &only_files.results {
        assert_eq!(item.file_type, FileType::File);
    }
    assert!(!only_files.results.is_empty());
    let only_dirs = search(&state, "target", false, true);
    for item in &only_dirs.results {
        assert_eq!(item.file_type, FileType::Directory);
    }
    assert!(!only_dirs.results.is_empty());
}

#[test]
fn empty_query_gives_empty_results() {
    let state = state_with_files(&[("readme", "/readme", FileType::File)]);
    let r = search(&state, "", true, true);
    assert!(r.results.is_empty());
    assert!(!r.more);
    let r2 = search(&state, "___", true, true);
    assert!(r2.results.is_empty());
}

#[test]
fn results_carry_descriptions() {
    let state = state_with_files(&[("photo.png", "/pics/photo.png", FileType::File)]);
    let r = search(&state, "photo", true, true);
    assert_eq!(r.results[0].description, "PNG image");
    assert_eq!(r.results[0].file_path, "/pics/photo.png");
}

#[test]
fn scoring_is_exact_for_full_matches() {
    assert_eq!(score_filename("ReadMe", "readme"), 1000);
    let fuzzy = score_filename("readme_old.txt", "readme");
    assert!(fuzzy > 0 && fuzzy != 1000);
    assert_eq!(score_filename("zzz", "qqq"), 0);
}

#[test]
fn extension_and_filename_helpers() {
    assert_eq!(get_extension("/a/b/c.txt"), "txt");
    assert_eq!(get_extension("archive.tar.gz"), "gz");
    assert_eq!(get_extension("/home/.gitignore"), "");
    assert_eq!(get_extension("noext"), "");
    assert_eq!(get_extension("trailing."), "");
    assert_eq!(file_name_of("/a/b/c.txt"), "c.txt");
    assert_eq!(file_name_of("c.txt"), "c.txt");
    assert_eq!(file_name_of("C:\\dir\\file"), "file");
    assert!(is_hidden(".bashrc"));
    assert!(!is_hidden("bashrc"));
    assert!(!is_hidden(""));
}

#[test]
fn descriptions_are_case_insensitive() {
    assert_eq!(get_file_description("png"), "PNG image");
    assert_eq!(get_file_description("PNG"), "PNG image");
    assert_eq!(get_file_description("JpEg"), "JPEG image");
    assert_eq!(get_file_description("unknownext"), "Unknown file type");
    assert_eq!(get_file_description("rs"), "Rust source file");
}
