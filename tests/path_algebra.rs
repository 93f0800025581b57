use fileorder::path::{
    append_segment, is_drive_indentifier, is_drive_letter, remove_directory_from_path,
    OperatingSystem,
};

#[test]
fn strip_windows_drive_paths() {
    assert_eq!(remove_directory_from_path("C:/Users/me", &OperatingSystem::Windows), "C:/Users");
    assert_eq!(remove_directory_from_path("C:/Users", &OperatingSystem::Windows), "C:");
}

#[test]
fn strip_posix_paths() {
    assert_eq!(remove_directory_from_path("/a/b", &OperatingSystem::Linux), "/a");
    assert_eq!(remove_directory_from_path("/a", &OperatingSystem::MacOs), "");
    assert_eq!(remove_directory_from_path("", &OperatingSystem::Linux), "");
    assert_eq!(remove_directory_from_path("/a//b/", &OperatingSystem::Linux), "/a");
}

#[test]
fn strip_drive_segment_on_posix_keeps_separator() {
    assert_eq!(remove_directory_from_path("C:/Users/me", &OperatingSystem::Linux), "/C:/Users");
}

#[test]
fn append_inserts_separator() {
    assert_eq!(append_segment("/a", "b"), "/a/b");
    assert_eq!(append_segment("", "b"), "/b");
    assert_eq!(append_segment("/", "b"), "/b");
    assert_eq!(append_segment("C:", "Users"), "C:/Users");
    assert_eq!(append_segment("C:/", "Users"), "C:/Users");
    assert_eq!(append_segment("/a/", "b"), "/a//b");
    assert_eq!(append_segment("c:/", "b"), "c://b");
}

#[test]
fn strip_after_append_round_trip() {
    for p in ["", "/a", "/a/b/c", "/Volumes/USB"] {
        for os in [OperatingSystem::Linux, OperatingSystem::MacOs, OperatingSystem::Windows] {
            let appended = append_segment(p, "x");
            assert_eq!(remove_directory_from_path(&appended, &os), p);
        }
    }
    let appended = append_segment("C:/Users", "x");
    assert_eq!(remove_directory_from_path(&appended, &OperatingSystem::Windows), "C:/Users");
}

#[test]
fn drive_identifiers() {
    assert!(is_drive_indentifier("C:"));
    assert!(is_drive_indentifier("A:"));
    assert!(is_drive_indentifier("Z:"));
    assert!(!is_drive_indentifier("c:"));
    assert!(!is_drive_indentifier("C:x"));
    assert!(!is_drive_indentifier("C"));
    assert!(!is_drive_indentifier(""));
    assert!(!is_drive_indentifier("CC"));
}

#[test]
fn drive_letters() {
    assert!(is_drive_letter(&'A'));
    assert!(is_drive_letter(&'Z'));
    assert!(!is_drive_letter(&'a'));
    assert!(!is_drive_letter(&'1'));
}
