use fsindex::commands::{command_interval_ms, shell_program, Command, CommandRunType};
use fsindex::state::{AppState, CachedPath, FileType};
use fsindex::themes::{find_theme, Theme};
use fsindex::volume::{DiskKind, Volume};

#[test]
fn volume_from_parts_fills_fields() {
    let v = Volume::from_parts(
        "".to_string(),
        "/mnt/data".to_string(),
        1000,
        250,
        true,
        "ext4".to_string(),
        DiskKind::Ssd,
    );
    assert_eq!(v.name, "Local Volume");
    assert_eq!(v.mount_point, "/mnt/data");
    assert_eq!(v.used, 750);
    assert_eq!(v.size, 1000);
    assert_eq!(v.available, 250);
    assert!(v.removable);
    assert_eq!(v.file_system_type, "ext4");
    assert_eq!(v.disk_type, "SSD");
    let named = Volume::from_parts(
        "Data".to_string(),
        "/d".to_string(),
        10,
        10,
        false,
        "ntfs".to_string(),
        DiskKind::Hdd,
    );
    assert_eq!(named.name, "Data");
    assert_eq!(named.used, 0);
    assert_eq!(named.disk_type, "HDD");
}

#[test]
fn scan_entries_all_land_in_cache() {
    let mut state = AppState::default();
    let volume = Volume::from_parts(
        "root".to_string(),
        "/".to_string(),
        1,
        0,
        false,
        "ext4".to_string(),
        DiskKind::Unknown,
    );
    let entries = vec![
        ("readme".to_string(), CachedPath::new("/a/readme".to_string(), FileType::File)),
        ("readme".to_string(), CachedPath::new("/b/readme".to_string(), FileType::File)),
        ("src".to_string(), CachedPath::new("/a/src".to_string(), FileType::Directory)),
    ];
    volume.create_cache(&mut state, entries);
    let cache = state.system_cache.get("/").expect("volume created");
    let readme = cache.get("readme").expect("filename key");
    assert_eq!(readme.len(), 2);
    assert_eq!(readme[0].file_path, "/a/readme");
    assert_eq!(readme[1].file_path, "/b/readme");
    assert_eq!(cache.get("src").expect("dir key")[0].file_type, FileType::Directory);

    // A second scan of the same volume merges into the existing cache.
    let more = vec![
        ("readme".to_string(), CachedPath::new("/c/readme".to_string(), FileType::File)),
    ];
    volume.create_cache(&mut state, more);
    let cache = state.system_cache.get("/").expect("volume kept");
    assert_eq!(cache.get("readme").expect("filename key").len(), 3);
    assert_eq!(state.system_cache.len(), 1);
}

fn sample_command(interval: &str, time: u32) -> Command {
    Command {
        name: "build".to_string(),
        commands: vec!["make".to_string()],
        description: "builds".to_string(),
        time,
        interval: interval.to_string(),
        mount_point: "/".to_string(),
        path: "proj".to_string(),
        command_type: CommandRunType::Bash,
    }
}

#[test]
fn command_intervals_translate_to_milliseconds() {
    assert_eq!(command_interval_ms(&sample_command("Minutes", 2)), Some(120000));
    assert_eq!(command_interval_ms(&sample_command("Seconds", 45)), Some(45000));
    assert_eq!(command_interval_ms(&sample_command("Milliseconds", 300)), Some(300));
    assert_eq!(command_interval_ms(&sample_command("Fortnights", 1)), None);
    assert_eq!(shell_program(CommandRunType::Shell), "sh");
    assert_eq!(shell_program(CommandRunType::Bash), "bash");
}

fn theme(name: &str) -> Theme {
    Theme {
        content: "{}".to_string(),
        created_at: "2024-01-01".to_string(),
        created_by_alias: "alice".to_string(),
        description: None,
        icon: None,
        name: name.to_string(),
        updated_at: "2024-01-02".to_string(),
        version: "1".to_string(),
    }
}

#[test]
fn theme_lookup_finds_first_match() {
    let themes = vec![theme("dark"), theme("light"), theme("dark")];
    assert_eq!(find_theme(&themes, "dark"), Some(0));
    assert_eq!(find_theme(&themes, "light"), Some(1));
    assert_eq!(find_theme(&themes, "sepia"), None);
}
