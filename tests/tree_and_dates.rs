use fileorder::directory::{find_directory_index_by_id, DirEntry, Directory, EntryKind, IoError};
use fileorder::file::{File, FileMetadata, Timestamp};
use fileorder::layouts::{format_datetime, get_formatted_metadata};
use fileorder::volumes::storage_root_name;

#[test]
fn materialize_replaces_children_and_counts() {
    let mut root = Directory::new();
    let mut counter: usize = 1;
    let listing = vec![
        DirEntry { name: "a".to_string(), kind: EntryKind::Directory, metadata: FileMetadata::new() },
        DirEntry { name: "f".to_string(), kind: EntryKind::File, metadata: FileMetadata::new() },
    ];
    assert!(root.write_directory_content(Ok(listing), &mut counter).is_ok());
    assert_eq!(counter, 2);
    assert_eq!(root.get_directory_ids(), vec![1]);
    let again = vec![DirEntry { name: "z".to_string(), kind: EntryKind::Directory, metadata: FileMetadata::new() }];
    assert!(root.write_directory_content(Ok(again), &mut counter).is_ok());
    assert_eq!(root.get_directory_ids(), vec![2]);
    assert_eq!(root.get_files().len(), 0);
    assert_eq!(counter, 3);
    let failed = root.write_directory_content(Err(IoError { description: "gone".to_string() }), &mut counter);
    assert!(failed.is_err());
    assert_eq!(root.get_directory_ids(), vec![2]);
    assert_eq!(counter, 3);
}

#[test]
fn build_and_find_by_id() {
    let children = vec![
        Directory::build(3, "x", vec![], vec![], FileMetadata::new()),
        Directory::build(7, "y", vec![], vec![], FileMetadata::new()),
    ];
    let files = vec![File::build("readme", FileMetadata::new())];
    let mut d = Directory::build(0, "root", children, files, FileMetadata::new());
    assert_eq!(find_directory_index_by_id(&d, 7), Some(1));
    assert_eq!(find_directory_index_by_id(&d, 4), None);
    assert_eq!(d.find_directory_by_id(&vec![7]).get_name(), "y");
    assert_eq!(d.find_directory_by_id(&vec![4, 7]).get_name(), "root");
    d.clear_directories();
    assert_eq!(d.get_name(), "");
    assert!(d.get_directories().is_empty());
    assert!(d.get_files().is_empty());
}

#[test]
fn storage_names() {
    assert_eq!(storage_root_name("/Volumes/USB"), "USB");
    assert_eq!(storage_root_name("C:"), "C:");
    assert_eq!(storage_root_name("/Volumes/"), "");
}

#[test]
fn date_text() {
    let t = Timestamp { year: 2024, month: 3, day: 5, hour: 7, minute: 8, second: 9 };
    assert_eq!(format_datetime(&t), "2024-3-5 7:8:9");
    let t = Timestamp { year: -44, month: 12, day: 31, hour: 23, minute: 59, second: 0 };
    assert_eq!(format_datetime(&t), "-44-12-31 23:59:0");
}

#[test]
fn formatted_metadata_notes_missing_dates() {
    let dates = get_formatted_metadata(&FileMetadata::new());
    assert_eq!(dates.created, "No creation date");
    assert_eq!(dates.modified, "No modified date");
    assert_eq!(dates.accessed, "No accessed date");
    let t = Timestamp { year: 1999, month: 1, day: 2, hour: 3, minute: 4, second: 5 };
    let meta = FileMetadata::build(Some(t), None, Some(t), false);
    let dates = get_formatted_metadata(&meta);
    assert_eq!(dates.created, "1999-1-2 3:4:5");
    assert_eq!(dates.modified, "No modified date");
    assert!(!meta.is_writable());
}

#[test]
fn instants_become_local_times() {
    let meta = FileMetadata::from_instants(Some((86_400 * 365, 0)), None, Some((0, 0)), true);
    let created = meta.get_created().expect("a representable instant");
    assert!(created.year == 1970 || created.year == 1971);
    assert!(created.month == 1 || created.month == 12);
    let accessed = meta.get_accessed().expect("a representable instant");
    assert!(accessed.year == 1969 || accessed.year == 1970);
    assert!(meta.get_modified().is_none());
    assert!(meta.is_writable());
    let far = FileMetadata::from_instants(Some((-8_000_000_000_000, 999_999_999)), Some((8_000_000_000_000, 0)), None, false);
    assert!(far.get_created().is_some());
    assert!(far.get_modified().is_some());
    assert!(far.get_accessed().is_none());
}

#[test]
fn mutable_children_accessors() {
    let children = vec![Directory::build(1, "x", vec![], vec![], FileMetadata::new())];
    let files = vec![File::build("a", FileMetadata::new()), File::build("b", FileMetadata::new())];
    let mut d = Directory::build(0, "root", children, files, FileMetadata::new());
    d.get_mut_directories().push(Directory::build(2, "y", vec![], vec![], FileMetadata::new()));
    assert_eq!(d.get_directory_ids(), vec![1, 2]);
    d.get_mut_files().clear();
    assert!(d.get_files().is_empty());
    assert_eq!(d.get_name(), "root");
}
