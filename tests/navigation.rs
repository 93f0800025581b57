use fileorder::directory::{DirEntry, EntryKind, IoError};
use fileorder::file::FileMetadata;
use fileorder::fileorder::{App, NavigationError};
use fileorder::layouts::Layout;
use fileorder::path::OperatingSystem;

fn dir(name: &str) -> DirEntry {
    DirEntry { name: name.to_string(), kind: EntryKind::Directory, metadata: FileMetadata::new() }
}

fn file(name: &str) -> DirEntry {
    DirEntry { name: name.to_string(), kind: EntryKind::File, metadata: FileMetadata::new() }
}

fn other(name: &str) -> DirEntry {
    DirEntry { name: name.to_string(), kind: EntryKind::Other, metadata: FileMetadata::new() }
}

fn unreadable() -> Result<Vec<DirEntry>, IoError> {
    Err(IoError { description: "permission denied".to_string() })
}

#[test]
fn enter_and_leave_scenario() {
    let mut app = App::new(OperatingSystem::Linux);
    app.enter_root("/a", Ok(vec![dir("b"), file("f.txt")]));
    let root = app.get_root();
    assert_eq!(root.get_directories().len(), 1);
    assert_eq!(root.get_directories()[0].get_directory_id(), 1);
    assert_eq!(root.get_directories()[0].get_name(), "b");
    assert_eq!(root.get_files().len(), 1);
    assert_eq!(root.get_files()[0].get_name(), "f.txt");
    assert_eq!(app.get_current_path(), "/a");

    assert_eq!(app.enter_target(1), Some("/a/b".to_string()));
    app.enter(1, Ok(vec![]));
    assert!(app.get_error().is_none());
    assert_eq!(app.get_current_path(), "/a/b");
    assert_eq!(app.get_id_stack(), &vec![1]);
    let node = app.get_root().find_directory_by_id(app.get_id_stack());
    assert_eq!(node.get_directory_id(), 1);
    assert_eq!(node.get_directories().len(), 0);
    assert_eq!(node.get_files().len(), 0);

    app.leave();
    assert_eq!(app.get_current_path(), "/a");
    assert!(app.get_id_stack().is_empty());
    assert_eq!(app.get_root().get_directories()[0].get_directories().len(), 0);
}

#[test]
fn leave_right_after_enter_restores_state() {
    let mut app = App::new(OperatingSystem::Linux);
    app.enter_root("/home", Ok(vec![dir("docs"), dir("music")]));
    app.enter(2, Ok(vec![dir("rock"), file("song.mp3"), dir("jazz")]));
    let path = app.get_current_path().to_string();
    let stack = app.get_id_stack().clone();
    let counter = app.get_directories_read();
    assert_eq!(path, "/home/music");
    assert_eq!(counter, 5);

    app.enter(4, Ok(vec![dir("x"), dir("y")]));
    assert_eq!(app.get_current_path(), "/home/music/jazz");
    assert_eq!(app.get_directories_read(), 7);
    app.leave();
    assert_eq!(app.get_current_path(), path);
    assert_eq!(app.get_id_stack(), &stack);
    assert_eq!(app.get_directories_read(), counter);
}

#[test]
fn fresh_ids_increase_in_listing_order() {
    let mut app = App::new(OperatingSystem::MacOs);
    app.enter_root("/r", Ok(vec![dir("a"), file("x"), dir("b"), other("sock"), dir("c")]));
    let ids = app.get_root().get_directory_ids();
    assert_eq!(ids, vec![1, 2, 3]);
    assert_eq!(app.get_root().get_files().len(), 1);
    assert_eq!(app.get_directories_read(), 4);
}

#[test]
fn entering_unknown_id_changes_only_error() {
    let mut app = App::new(OperatingSystem::Linux);
    app.enter_root("/a", Ok(vec![dir("b")]));
    assert_eq!(app.enter_target(99), None);
    app.enter(99, Ok(vec![dir("z")]));
    assert!(matches!(app.get_error(), Some(NavigationError::UnknownDirectory(99))));
    assert_eq!(app.get_current_path(), "/a");
    assert!(app.get_id_stack().is_empty());
    assert_eq!(app.get_directories_read(), 2);
    assert_eq!(app.get_root().get_directories()[0].get_directories().len(), 0);
}

#[test]
fn failed_read_on_enter_rolls_back() {
    let mut app = App::new(OperatingSystem::Linux);
    app.enter_root("/a", Ok(vec![dir("b")]));
    app.enter(1, unreadable());
    match app.get_error() {
        Some(NavigationError::Io(e)) => assert_eq!(e.description, "permission denied"),
        _ => panic!("expected an I/O error"),
    }
    assert_eq!(app.get_current_path(), "/a");
    assert!(app.get_id_stack().is_empty());
    assert_eq!(app.get_directories_read(), 2);
    app.leave();
    assert!(app.get_error().is_none());
}

#[test]
fn leave_with_empty_stack_is_noop() {
    let mut app = App::new(OperatingSystem::Linux);
    app.enter_root("/a", Ok(vec![dir("b")]));
    app.leave();
    assert_eq!(app.get_current_path(), "/a");
    assert_eq!(app.get_root().get_directories().len(), 1);
    assert_eq!(app.get_directories_read(), 2);
}

#[test]
fn switch_root_on_unreadable_volume() {
    let mut app = App::new(OperatingSystem::MacOs);
    app.enter_root("/a", Ok(vec![dir("b"), file("f")]));
    let ok = app.switch_root("/Volumes/USB", unreadable());
    assert!(!ok);
    assert!(matches!(app.get_error(), Some(NavigationError::Io(_))));
    assert_eq!(app.get_root().get_directories().len(), 0);
    assert_eq!(app.get_root().get_files().len(), 0);

    let mut fresh = App::new(OperatingSystem::MacOs);
    fresh.enter_root("/Volumes/USB", unreadable());
    assert_eq!(fresh.get_root().get_directories().len(), 0);
    assert_eq!(fresh.get_root().get_files().len(), 0);
    assert!(matches!(fresh.get_error(), Some(NavigationError::Io(_))));
}

#[test]
fn switch_root_success() {
    let mut app = App::new(OperatingSystem::MacOs);
    app.enter_root("/a", Ok(vec![dir("b")]));
    app.enter(1, Ok(vec![dir("c")]));
    assert!(app.switch_root("/Volumes/USB", Ok(vec![dir("photos")])));
    assert_eq!(app.get_current_path(), "/Volumes/USB");
    assert!(app.get_id_stack().is_empty());
    assert_eq!(app.get_root().get_directory_ids(), vec![1]);
}

#[test]
fn storage_roots_become_stub_nodes() {
    let mut app = App::new(OperatingSystem::MacOs);
    let paths = vec!["/Volumes/USB".to_string(), "/Volumes/Data".to_string()];
    app.open_browser(&paths, Ok(vec![dir("Users")]));
    assert_eq!(app.get_layout(), Layout::Templates);
    assert_eq!(app.get_current_path(), "");
    let storage = app.get_external_storage_devices();
    assert_eq!(storage.len(), 2);
    assert_eq!(storage[0].get_name(), "USB");
    assert_eq!(storage[0].get_directory_id(), 0);
    assert_eq!(storage[1].get_name(), "Data");
    assert_eq!(storage[1].get_directory_id(), 1);
    assert!(storage[1].get_directories().is_empty());
    assert_eq!(
        app.storage_device_paths(1),
        Some(("/Volumes/Data".to_string(), "/Volumes/Data".to_string()))
    );
    assert_eq!(app.storage_device_paths(5), None);
    assert_eq!(app.enter_target(1), Some("/Users".to_string()));
}

#[test]
fn windows_storage_paths() {
    let mut app = App::new(OperatingSystem::Windows);
    app.open_browser(&vec!["C:".to_string(), "D:".to_string()], Ok(vec![]));
    assert_eq!(app.storage_device_paths(1), Some(("D:/".to_string(), "D:".to_string())));
    assert!(app.switch_root("D:", Ok(vec![dir("Games")])));
    app.enter(1, Ok(vec![]));
    assert_eq!(app.get_current_path(), "D:/Games");
    app.leave();
    assert_eq!(app.get_current_path(), "D:");
}

#[test]
fn linux_has_no_storage_paths() {
    let mut app = App::new(OperatingSystem::Linux);
    app.open_browser(&vec!["/mnt/x".to_string()], Ok(vec![]));
    assert_eq!(app.storage_device_paths(0), None);
}

#[test]
fn go_home_empties_stack() {
    let mut app = App::new(OperatingSystem::Linux);
    app.enter_root("/a", Ok(vec![dir("b")]));
    app.enter(1, Ok(vec![]));
    app.go_home();
    assert_eq!(app.get_layout(), Layout::Home);
    assert!(app.get_id_stack().is_empty());
}

#[test]
fn deeper_walk_uses_stack() {
    let mut app = App::new(OperatingSystem::Linux);
    app.enter_root("/r", Ok(vec![dir("a"), dir("b")]));
    app.enter(1, Ok(vec![dir("c"), dir("d")]));
    app.enter(4, Ok(vec![dir("e")]));
    assert_eq!(app.get_current_path(), "/r/a/d");
    assert_eq!(app.get_id_stack(), &vec![1, 4]);
    let node = app.get_root().find_directory_by_id(app.get_id_stack());
    assert_eq!(node.get_name(), "d");
    assert_eq!(node.get_directory_ids(), vec![5]);
    app.leave();
    app.leave();
    assert_eq!(app.get_current_path(), "/r");
    assert_eq!(app.get_directories_read(), 3);
}

#[test]
fn entering_below_trailing_separator_and_root() {
    let mut app = App::new(OperatingSystem::Linux);
    app.enter_root("/a/", Ok(vec![dir("b")]));
    assert_eq!(app.enter_target(1), Some("/a//b".to_string()));
    app.enter(1, Ok(vec![]));
    assert_eq!(app.get_current_path(), "/a//b");

    let mut top = App::new(OperatingSystem::Linux);
    top.enter_root("/", Ok(vec![dir("usr")]));
    app.clear_error();
    top.enter(1, Ok(vec![]));
    assert_eq!(top.get_current_path(), "/usr");
    top.leave();
    assert_eq!(top.get_current_path(), "");
}
