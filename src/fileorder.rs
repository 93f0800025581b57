//! The navigation controller: it owns the tree, the identifier counter, the
//! current path and the stack of identifiers, and turns navigation commands
//! together with the directory reads they need into new states.
use vstd::prelude::*;
use vstd::string::*;

use crate::directory::{
    dir_count, enter_walk, find_child, lemma_listed_ids, lemma_node_after_set,
    lemma_resolve_after_set, lemma_resolve_valid, listed_dirs, listed_files, node_at,
    position_of_id, resolve, views_of, with_children_at, DirEntry, DirView, Directory, IoError,
};
use crate::file::FileMetadata;
use crate::layouts::Layout;
use crate::path::{
    append_segment, append_segment_spec, is_canonical_path, is_segment_name,
    lemma_strip_after_append, remove_directory_from_path, strip_last_segment, OperatingSystem,
};
use crate::volumes::{storage_nodes, storage_views};

verus! {

/// The commands that the presentation layer issues.
#[derive(Debug, Clone, Copy, PartialEq, Eq, Structural)]
pub enum Message {
    HomeLayout,
    TemplateLayout,
    In(usize),
    Out,
    InExternal(usize),
}

/// Why the last navigation command did not take effect.
#[derive(Debug, Clone)]
pub enum NavigationError {
    /// The directory could not be read.
    Io(IoError),
    /// No directory with this identifier is reachable from the current position.
    UnknownDirectory(usize),
    /// The listing holds more directories than identifiers are left.
    IdentifiersExhausted,
}

/// The state of the controller in the model.
pub struct AppView {
    pub operating_system: OperatingSystem,
    pub root: DirView,
    pub layout: Layout,
    pub id_stack: Seq<usize>,
    pub current_path: Seq<char>,
    pub directories_read: usize,
    pub storage: Seq<DirView>,
    pub error: Option<NavigationError>,
}

/// `listing` has room for its directories in the identifiers left after `counter`.
pub open spec fn listing_fits(counter: usize, listing: Result<Vec<DirEntry>, IoError>) -> bool {
    listing matches Ok(es) ==> counter + es@.len() <= usize::MAX
}

/// The root with its name and children dropped.
pub open spec fn cleared(d: DirView) -> DirView {
    DirView { name: seq![], dirs: seq![], files: seq![], ..d }
}

/// A new tree read from `listing`: the root keeps identifier 0 and its
/// directories are numbered from 1.
pub open spec fn fresh_root_spec(
    s: AppView,
    current_path: Seq<char>,
    listing: Result<Vec<DirEntry>, IoError>,
) -> AppView {
    let base = AppView {
        root: cleared(s.root),
        id_stack: seq![],
        current_path,
        directories_read: 1,
        error: None,
        ..s
    };
    if !listing_fits(1, listing) {
        AppView { error: Some(NavigationError::IdentifiersExhausted), ..base }
    } else {
        match listing {
            Ok(es) => AppView {
                root: DirView { dirs: listed_dirs(es@, 1), files: listed_files(es@), ..cleared(s.root) },
                directories_read: (1 + dir_count(es@)) as usize,
                ..base
            },
            Err(e) => AppView { error: Some(NavigationError::Io(e)), ..base },
        }
    }
}

/// Entering the directory `child`.
pub open spec fn enter_spec(s: AppView, child: usize, listing: Result<Vec<DirEntry>, IoError>) -> AppView {
    let stack = s.id_stack.push(child);
    match enter_walk(s.root, stack, child) {
        None => AppView { error: Some(NavigationError::UnknownDirectory(child)), ..s },
        Some(p) => if !listing_fits(s.directories_read, listing) {
            AppView { error: Some(NavigationError::IdentifiersExhausted), ..s }
        } else {
            match listing {
                Ok(es) => AppView {
                    root: with_children_at(
                        s.root,
                        p,
                        listed_dirs(es@, s.directories_read),
                        listed_files(es@),
                    ),
                    id_stack: stack,
                    current_path: append_segment_spec(s.current_path, node_at(s.root, p).name),
                    directories_read: (s.directories_read + dir_count(es@)) as usize,
                    error: None,
                    ..s
                },
                Err(e) => AppView { error: Some(NavigationError::Io(e)), ..s },
            }
        },
    }
}

/// Leaving the current directory.
pub open spec fn leave_spec(s: AppView) -> AppView {
    if s.id_stack.len() == 0 {
        AppView { error: None, ..s }
    } else {
        let p = resolve(s.root, s.id_stack);
        let k = node_at(s.root, p).dirs.len();
        AppView {
            root: with_children_at(s.root, p, seq![], seq![]),
            id_stack: s.id_stack.drop_last(),
            current_path: strip_last_segment(s.current_path, s.operating_system),
            directories_read: if k <= s.directories_read {
                (s.directories_read - k) as usize
            } else {
                0
            },
            error: None,
            ..s
        }
    }
}

/// The path to read and the path to show when the storage root named `name`
/// becomes the root; platforms without storage roots have none.
pub open spec fn volume_paths(os: OperatingSystem, name: Seq<char>) -> Option<(Seq<char>, Seq<char>)> {
    match os {
        OperatingSystem::MacOs => Some((volumes_dir() + name, volumes_dir() + name)),
        OperatingSystem::Windows => Some((name + seq!['/'], name)),
        _ => None,
    }
}

/// The directory under which macOS mounts volumes, with a trailing separator.
pub open spec fn volumes_dir() -> Seq<char> {
    seq!['/', 'V', 'o', 'l', 'u', 'm', 'e', 's', '/']
}

/// Leaving right after entering a directory, where the identifier stack
/// addresses that directory, gives back the path, the identifier stack and
/// the counter as they were before entering.
pub proof fn lemma_enter_then_leave(s: AppView, child: usize, entries: Vec<DirEntry>)
    requires
        is_canonical_path(s.current_path, s.operating_system),
        s.directories_read + entries@.len() <= usize::MAX,
        enter_walk(s.root, s.id_stack.push(child), child) matches Some(p) && {
            &&& resolve(s.root, s.id_stack.push(child)) == p
            &&& p.len() == s.id_stack.len() + 1
            &&& is_segment_name(node_at(s.root, p).name)
        },
    ensures
        leave_spec(enter_spec(s, child, Ok(entries))).current_path == s.current_path,
        leave_spec(enter_spec(s, child, Ok(entries))).id_stack == s.id_stack,
        leave_spec(enter_spec(s, child, Ok(entries))).directories_read == s.directories_read,
{
    let stack = s.id_stack.push(child);
    let p = enter_walk(s.root, stack, child)->Some_0;
    let ld = listed_dirs(entries@, s.directories_read);
    let lf = listed_files(entries@);
    let s1 = enter_spec(s, child, Ok(entries));
    assert(s1.root == with_children_at(s.root, p, ld, lf));
    lemma_resolve_valid(s.root, stack);
    lemma_resolve_after_set(s.root, stack, p, ld, lf);
    lemma_node_after_set(s.root, p, ld, lf);
    lemma_listed_ids(entries@, s.directories_read);
    lemma_strip_after_append(s.current_path, node_at(s.root, p).name, s.operating_system);
    assert(stack.drop_last() =~= s.id_stack);
}

/// Right after a fresh tree is read, its directories carry the identifiers
/// 1, 2, ... in the order in which they were listed: unique among siblings
/// and strictly increasing.
pub proof fn lemma_fresh_ids_increasing(s: AppView, current_path: Seq<char>, entries: Vec<DirEntry>)
    requires
        1 + entries@.len() <= usize::MAX,
    ensures
        ({
            let dirs = fresh_root_spec(s, current_path, Ok(entries)).root.dirs;
            &&& forall|i: int| 0 <= i < dirs.len() ==> #[trigger] dirs[i].id == 1 + i
            &&& forall|i: int, j: int| 0 <= i < j < dirs.len() ==> dirs[i].id < dirs[j].id
        }),
{
    lemma_listed_ids(entries@, 1);
}

/// Entering an identifier that the walk does not find changes nothing but
/// the error it records.
pub proof fn lemma_enter_unknown(s: AppView, child: usize, listing: Result<Vec<DirEntry>, IoError>)
    requires
        enter_walk(s.root, s.id_stack.push(child), child) is None,
    ensures
        enter_spec(s, child, listing) == (AppView {
            error: Some(NavigationError::UnknownDirectory(child)),
            ..s
        }),
{
}

/// The controller.
#[derive(Debug)]
pub struct App {
    operating_system: OperatingSystem,
    root: Directory,
    layout: Layout,
    id_stack: Vec<usize>,
    current_path: String,
    directories_read: usize,
    external_storage_directories: Vec<Directory>,
    error: Option<NavigationError>,
}

impl View for App {
    type V = AppView;

    closed spec fn view(&self) -> AppView {
        AppView {
            operating_system: self.operating_system,
            root: self.root@,
            layout: self.layout,
            id_stack: self.id_stack@,
            current_path: self.current_path@,
            directories_read: self.directories_read,
            storage: self.external_storage_directories@.map_values(|d: Directory| d@),
            error: self.error,
        }
    }
}

impl App {
    /// A controller on the home screen with an empty tree.
    pub fn new(operating_system: OperatingSystem) -> (r: Self)
        ensures
            r@.operating_system == operating_system,
            r@.root == (DirView {
                id: 0,
                name: seq![],
                dirs: seq![],
                files: seq![],
                metadata: FileMetadata { created: None, modified: None, accessed: None, writable: true },
            }),
            r@.layout == Layout::Home,
            r@.id_stack == Seq::<usize>::empty(),
            r@.current_path == Seq::<char>::empty(),
            r@.directories_read == 0,
            r@.storage == Seq::<DirView>::empty(),
            r@.error is None,
    {
        let r = App {
            operating_system,
            root: Directory::new(),
            layout: Layout::Home,
            id_stack: Vec::new(),
            current_path: String::new(),
            directories_read: 0,
            external_storage_directories: Vec::new(),
            error: None,
        };
        proof {
            assert(r@.storage =~= seq![]);
        }
        r
    }

    /// Back to the home screen; the identifier stack is emptied.
    pub fn go_home(&mut self)
        ensures
            final(self)@ == (AppView {
                layout: Layout::Home,
                id_stack: seq![],
                error: None,
                ..old(self)@
            }),
    {
        self.error = None;
        self.layout = Layout::Home;
        self.id_stack = Vec::new();
        proof {
            assert(self@.id_stack =~= seq![]);
        }
    }

    /// Replaces the tree by one read afresh: `listing` is the read of the
    /// directory that `current_path` then names.
    fn refresh_root(&mut self, current_path: &str, listing: Result<Vec<DirEntry>, IoError>)
        ensures
            final(self)@ == fresh_root_spec(old(self)@, current_path@, listing),
    {
        self.error = None;
        self.root.clear_directories();
        self.directories_read = 1;
        self.current_path = String::from_str(current_path);
        self.id_stack = Vec::new();
        proof {
            assert(self@.id_stack =~= seq![]);
        }
        let fits = match &listing {
            Ok(entries) => entries.len() <= usize::MAX - 1,
            Err(_) => true,
        };
        if !fits {
            self.error = Some(NavigationError::IdentifiersExhausted);
            return;
        }
        match self.root.write_directory_content(listing, &mut self.directories_read) {
            Ok(()) => {},
            Err(error) => {
                self.error = Some(NavigationError::Io(error));
            },
        }
    }

    /// Starts browsing at `initial_path`, of which `listing` is the read. The
    /// tree is cleared, the identifier stack emptied and the counter restarted
    /// after the root's own identifier 0. When the read failed the tree stays
    /// empty and the error is recorded.
    pub fn enter_root(&mut self, initial_path: &str, listing: Result<Vec<DirEntry>, IoError>)
        ensures
            final(self)@ == fresh_root_spec(old(self)@, initial_path@, listing),
    {
        self.refresh_root(initial_path, listing);
    }

    /// Opens the browser: the storage roots found on this machine become
    /// alternate entry points and the tree is read afresh from the file
    /// system's root, shown under the empty path.
    pub fn open_browser(&mut self, storage_paths: &Vec<String>, listing: Result<Vec<DirEntry>, IoError>)
        ensures
            final(self)@ == (AppView {
                layout: Layout::Templates,
                storage: storage_views(storage_paths@),
                ..fresh_root_spec(old(self)@, seq![], listing)
            }),
    {
        proof {
            reveal_strlit("");
            assert(""@ =~= Seq::<char>::empty());
        }
        self.initialize_external_devices(storage_paths);
        self.refresh_root("", listing);
        self.layout = Layout::Templates;
    }

    /// The storage roots as stub directories, numbered by their position.
    fn initialize_external_devices(&mut self, external_storage_paths: &Vec<String>)
        ensures
            final(self)@ == (AppView {
                storage: storage_views(external_storage_paths@),
                ..old(self)@
            }),
    {
        self.external_storage_directories = storage_nodes(external_storage_paths);
    }

    /// The path that entering `selected_directory_id` reads, if the walk finds it.
    pub fn enter_target(&self, selected_directory_id: usize) -> (r: Option<String>)
        ensures
            match enter_walk(self@.root, self@.id_stack.push(selected_directory_id), selected_directory_id) {
                Some(p) => r matches Some(t) && t@ == append_segment_spec(
                    self@.current_path,
                    node_at(self@.root, p).name,
                ),
                None => r is None,
            },
    {
        let mut stack = self.id_stack.clone();
        proof {
            assert(stack@ =~= self.id_stack@);
        }
        stack.push(selected_directory_id);
        match self.root.entering_name(&stack, selected_directory_id) {
            Some(name) => Some(append_segment(self.current_path.as_str(), name)),
            None => None,
        }
    }

    /// Enters the directory `selected_directory_id`; `listing` is the read of
    /// the path that `enter_target` gives. On any failure only the error changes.
    pub fn enter(&mut self, selected_directory_id: usize, listing: Result<Vec<DirEntry>, IoError>)
        ensures
            final(self)@ == enter_spec(old(self)@, selected_directory_id, listing),
    {
        self.error = None;
        self.id_stack.push(selected_directory_id);
        if self.root.entering_name(&self.id_stack, selected_directory_id).is_none() {
            self.id_stack.pop();
            proof {
                assert(self.id_stack@ =~= old(self).id_stack@);
            }
            self.error = Some(NavigationError::UnknownDirectory(selected_directory_id));
            return;
        }
        let fits = match &listing {
            Ok(entries) => entries.len() <= usize::MAX - self.directories_read,
            Err(_) => true,
        };
        if !fits {
            self.id_stack.pop();
            proof {
                assert(self.id_stack@ =~= old(self).id_stack@);
            }
            self.error = Some(NavigationError::IdentifiersExhausted);
            return;
        }
        match self.root.insert_new_sub_directory(
            &self.id_stack,
            &mut self.current_path,
            &mut self.directories_read,
            selected_directory_id,
            listing,
        ) {
            Ok(()) => {},
            Err(error) => {
                self.id_stack.pop();
                proof {
                    assert(self.id_stack@ =~= old(self).id_stack@);
                }
                self.error = Some(NavigationError::Io(error));
            },
        }
    }

    /// Leaves the current directory: its materialized children are dropped,
    /// the counter goes back by the number of its child directories (not below
    /// zero), the path loses its last segment and the stack its top.
    pub fn leave(&mut self)
        ensures
            final(self)@ == leave_spec(old(self)@),
    {
        self.error = None;
        if self.id_stack.len() == 0 {
            return;
        }
        let count = self.root.collapse_directory(&self.id_stack);
        if count <= self.directories_read {
            self.directories_read = self.directories_read - count;
        } else {
            self.directories_read = 0;
        }
        self.current_path = remove_directory_from_path(self.current_path.as_str(), &self.operating_system);
        self.id_stack.pop();
    }

    /// The path to read and the path to show for the storage root with
    /// identifier `selected_directory_id`, if there is one.
    pub fn storage_device_paths(&self, selected_directory_id: usize) -> (r: Option<(String, String)>)
        ensures
            match find_child(self@.storage, selected_directory_id) {
                Some(i) => match volume_paths(self@.operating_system, self@.storage[i as int].name) {
                    Some(v) => r matches Some(t) && t.0@ == v.0 && t.1@ == v.1,
                    None => r is None,
                },
                None => r is None,
            },
    {
        proof {
            assert(self@.storage == views_of(self.external_storage_directories@));
        }
        match position_of_id(&self.external_storage_directories, selected_directory_id) {
            None => None,
            Some(i) => {
                let name = self.external_storage_directories[i].get_name();
                proof {
                    reveal_strlit("/Volumes/");
                    reveal_strlit("/");
                    assert("/Volumes/"@ =~= volumes_dir());
                }
                match self.operating_system {
                    OperatingSystem::MacOs => {
                        let mut read_path = String::from_str("/Volumes/");
                        read_path.append(name);
                        let mut shown_path = String::from_str("/Volumes/");
                        shown_path.append(name);
                        Some((read_path, shown_path))
                    },
                    OperatingSystem::Windows => {
                        let mut read_path = String::from_str(name);
                        read_path.append("/");
                        Some((read_path, String::from_str(name)))
                    },
                    _ => None,
                }
            },
        }
    }

    /// Makes another storage root the root of the tree: `listing` is the read
    /// of its path, `display_path` what the current path becomes. As with
    /// `enter_root`, a failed read leaves the tree empty and records the
    /// error. Tells whether the read succeeded.
    pub fn switch_root(&mut self, display_path: &str, listing: Result<Vec<DirEntry>, IoError>) -> (r: bool)
        ensures
            final(self)@ == fresh_root_spec(old(self)@, display_path@, listing),
            r == (final(self)@.error is None),
    {
        self.refresh_root(display_path, listing);
        self.error.is_none()
    }

    /// Forgets the error of the last command, as every command does first.
    pub fn clear_error(&mut self)
        ensures
            final(self)@ == (AppView { error: None, ..old(self)@ }),
    {
        self.error = None;
    }

    pub fn get_root(&self) -> (r: &Directory)
        ensures
            r@ == self@.root,
    {
        &self.root
    }

    pub fn get_id_stack(&self) -> (r: &Vec<usize>)
        ensures
            r@ == self@.id_stack,
    {
        &self.id_stack
    }

    pub fn get_external_storage_devices(&self) -> (r: &Vec<Directory>)
        ensures
            r@.map_values(|d: Directory| d@) == self@.storage,
    {
        &self.external_storage_directories
    }

    pub fn get_error(&self) -> (r: &Option<NavigationError>)
        ensures
            *r == self@.error,
    {
        &self.error
    }

    pub fn get_current_path(&self) -> (r: &str)
        ensures
            r@ == self@.current_path,
    {
        self.current_path.as_str()
    }

    pub fn get_directories_read(&self) -> (r: usize)
        ensures
            r == self@.directories_read,
    {
        self.directories_read
    }

    pub fn get_layout(&self) -> (r: Layout)
        ensures
            r == self@.layout,
    {
        self.layout
    }

    pub fn get_operating_system(&self) -> (r: OperatingSystem)
        ensures
            r == self@.operating_system,
    {
        self.operating_system
    }
}

} // verus!
