//! The directory tree, its lazy materialization from one directory listing,
//! and the walks that address a node through a stack of identifiers.
use vstd::prelude::*;
use vstd::string::*;

use crate::file::{File, FileMetadata, FileView};
use crate::path::{append_segment, append_segment_spec};

verus! {

/// What a directory is in the model: its identifier, its name, and the
/// children that have been materialized so far.
pub struct DirView {
    pub id: usize,
    pub name: Seq<char>,
    pub dirs: Seq<DirView>,
    pub files: Seq<FileView>,
    pub metadata: FileMetadata,
}

/// How an entry of a listing was classified.
#[derive(Debug, Clone, Copy, PartialEq, Eq, Structural)]
pub enum EntryKind {
    Directory,
    File,
    Other,
}

/// One entry of a directory listing as it was read from disk.
#[derive(Debug, Clone)]
pub struct DirEntry {
    pub name: String,
    pub kind: EntryKind,
    pub metadata: FileMetadata,
}

/// A directory listing could not be read.
#[derive(Debug, Clone)]
pub struct IoError {
    pub description: String,
}

/// A directory of the tree. It owns its children; an empty one is either
/// empty on disk or not yet materialized.
#[derive(Debug)]
pub struct Directory {
    id: usize,
    name: String,
    directories: Vec<Directory>,
    files: Vec<File>,
    metadata: FileMetadata,
}

impl View for Directory {
    type V = DirView;

    closed spec fn view(&self) -> DirView {
        dir_model(*self)
    }
}

/// The model of `d`, built down through all its materialized children.
spec fn dir_model(d: Directory) -> DirView
    decreases d,
{
    DirView {
        id: d.id,
        name: d.name@,
        dirs: Seq::new(
            d.directories@.len(),
            |i: int|
                {
                    if 0 <= i < d.directories@.len() {
                        dir_model(d.directories@[i])
                    } else {
                        arbitrary()
                    }
                },
        ),
        files: d.files@.map_values(|f: File| f@),
        metadata: d.metadata,
    }
}

/// `i` is the first position among `dirs` that holds identifier `id`.
pub open spec fn is_first_match(dirs: Seq<DirView>, id: usize, i: usize) -> bool {
    &&& i < dirs.len()
    &&& dirs[i as int].id == id
    &&& forall|j: int| 0 <= j < i ==> dirs[j].id != id
}

/// The position of the first child with identifier `id`, if any.
pub open spec fn find_child(dirs: Seq<DirView>, id: usize) -> Option<usize> {
    if exists|i: usize| is_first_match(dirs, id, i) {
        Some(choose|i: usize| is_first_match(dirs, id, i))
    } else {
        None
    }
}

/// The positions that lead from `d` down through the identifiers of `stack`,
/// stopping at the first identifier that is not found.
pub open spec fn resolve(d: DirView, stack: Seq<usize>) -> Seq<usize>
    decreases stack.len(),
{
    if stack.len() == 0 {
        seq![]
    } else {
        match find_child(d.dirs, stack[0]) {
            Some(j) => seq![j] + resolve(d.dirs[j as int], stack.drop_first()),
            None => seq![],
        }
    }
}

/// The walk of an entering step: at each level the child `child` is looked
/// for first; failing that the walk descends through the next identifier of
/// `stack` (or stays where it is when that one is missing too).
pub open spec fn enter_walk(d: DirView, stack: Seq<usize>, child: usize) -> Option<Seq<usize>>
    decreases stack.len(),
{
    if stack.len() == 0 {
        None
    } else {
        match find_child(d.dirs, child) {
            Some(j) => Some(seq![j]),
            None => match find_child(d.dirs, stack[0]) {
                Some(k) => match enter_walk(d.dirs[k as int], stack.drop_first(), child) {
                    Some(p) => Some(seq![k] + p),
                    None => None,
                },
                None => enter_walk(d, stack.drop_first(), child),
            },
        }
    }
}

/// Every position of `path` exists on the way down from `d`.
pub open spec fn valid_path(d: DirView, path: Seq<usize>) -> bool
    decreases path.len(),
{
    path.len() == 0 || (path[0] < d.dirs.len() && valid_path(d.dirs[path[0] as int], path.drop_first()))
}

/// The node that `path` leads to from `d`.
pub open spec fn node_at(d: DirView, path: Seq<usize>) -> DirView
    decreases path.len(),
{
    if path.len() == 0 {
        d
    } else {
        node_at(d.dirs[path[0] as int], path.drop_first())
    }
}

/// `d` with the children of the node at `path` replaced.
pub open spec fn with_children_at(
    d: DirView,
    path: Seq<usize>,
    dirs: Seq<DirView>,
    files: Seq<FileView>,
) -> DirView
    decreases path.len(),
{
    if path.len() == 0 {
        DirView { dirs, files, ..d }
    } else {
        DirView {
            dirs: d.dirs.update(
                path[0] as int,
                with_children_at(d.dirs[path[0] as int], path.drop_first(), dirs, files),
            ),
            ..d
        }
    }
}

/// The number of directory entries in `entries`.
pub open spec fn dir_count(entries: Seq<DirEntry>) -> nat
    decreases entries.len(),
{
    if entries.len() == 0 {
        0
    } else {
        dir_count(entries.drop_last()) + if entries.last().kind == EntryKind::Directory {
            1nat
        } else {
            0nat
        }
    }
}

/// A fresh, childless directory node.
pub open spec fn fresh_dir(id: usize, e: DirEntry) -> DirView {
    DirView { id, name: e.name@, dirs: seq![], files: seq![], metadata: e.metadata }
}

/// The directory nodes that `entries` give, in listing order, numbered from `start`.
pub open spec fn listed_dirs(entries: Seq<DirEntry>, start: usize) -> Seq<DirView>
    decreases entries.len(),
{
    if entries.len() == 0 {
        seq![]
    } else {
        let prev = listed_dirs(entries.drop_last(), start);
        if entries.last().kind == EntryKind::Directory {
            prev.push(fresh_dir((start + prev.len()) as usize, entries.last()))
        } else {
            prev
        }
    }
}

/// The files that `entries` give, in listing order.
pub open spec fn listed_files(entries: Seq<DirEntry>) -> Seq<FileView>
    decreases entries.len(),
{
    if entries.len() == 0 {
        seq![]
    } else {
        let prev = listed_files(entries.drop_last());
        let e = entries.last();
        if e.kind == EntryKind::File {
            prev.push(FileView { name: e.name@, metadata: e.metadata })
        } else {
            prev
        }
    }
}

/// The directories of a listing get the identifiers `start`, `start + 1`, ...
/// in the order in which they were listed.
pub proof fn lemma_listed_ids(entries: Seq<DirEntry>, start: usize)
    requires
        start + entries.len() <= usize::MAX,
    ensures
        listed_dirs(entries, start).len() == dir_count(entries),
        dir_count(entries) <= entries.len(),
        forall|i: int|
            0 <= i < listed_dirs(entries, start).len() ==> (#[trigger] listed_dirs(entries, start)[i]).id
                == start + i,
    decreases entries.len(),
{
    if entries.len() > 0 {
        lemma_listed_ids(entries.drop_last(), start);
    }
}

/// The models of a sequence of directories.
pub open spec fn views_of(v: Seq<Directory>) -> Seq<DirView> {
    v.map_values(|c: Directory| c@)
}

/// The models of a sequence of files.
pub open spec fn file_views_of(v: Seq<File>) -> Seq<FileView> {
    v.map_values(|f: File| f@)
}

/// The model of a directory, field by field.
broadcast proof fn lemma_model_fields(d: Directory)
    ensures
        #[trigger] dir_model(d) == (DirView {
            id: d.id,
            name: d.name@,
            dirs: views_of(d.directories@),
            files: file_views_of(d.files@),
            metadata: d.metadata,
        }),
{
    lemma_view_unfold(d);
}

proof fn lemma_view_unfold(d: Directory)
    ensures
        d@.id == d.id,
        d@.name == d.name@,
        d@.metadata == d.metadata,
        d@.dirs == views_of(d.directories@),
        d@.files == file_views_of(d.files@),
{
    let vs = views_of(d.directories@);
    assert(d@.dirs.len() == vs.len());
    assert forall|i: int| 0 <= i < vs.len() implies d@.dirs[i] == vs[i] by {
        assert(vs[i] == d.directories@[i]@);
    }
    assert(d@.dirs =~= vs);
}

proof fn lemma_first_match_unique(dirs: Seq<DirView>, id: usize, a: usize, b: usize)
    requires
        is_first_match(dirs, id, a),
        is_first_match(dirs, id, b),
    ensures
        a == b,
{
    if a < b {
        assert(dirs[a as int].id == id);
    } else if b < a {
        assert(dirs[b as int].id == id);
    }
}

proof fn lemma_find_some(dirs: Seq<DirView>, id: usize, i: usize)
    requires
        is_first_match(dirs, id, i),
    ensures
        find_child(dirs, id) == Some(i),
{
    let c = choose|c: usize| is_first_match(dirs, id, c);
    lemma_first_match_unique(dirs, id, c, i);
}

proof fn lemma_find_none(dirs: Seq<DirView>, id: usize)
    requires
        forall|j: int| 0 <= j < dirs.len() ==> dirs[j].id != id,
    ensures
        find_child(dirs, id) is None,
{
    assert(!exists|i: usize| is_first_match(dirs, id, i));
}

proof fn lemma_node_at_push(d: DirView, path: Seq<usize>, j: usize)
    requires
        valid_path(d, path),
        j < node_at(d, path).dirs.len(),
    ensures
        valid_path(d, path.push(j)),
        node_at(d, path.push(j)) == node_at(d, path).dirs[j as int],
    decreases path.len(),
{
    if path.len() == 0 {
        assert(path.push(j).drop_first() =~= seq![]);
        assert(valid_path(d.dirs[j as int], seq![]));
        assert(node_at(d.dirs[j as int], seq![]) == d.dirs[j as int]);
    } else {
        assert(path.push(j)[0] == path[0]);
        assert(path.push(j).drop_first() =~= path.drop_first().push(j));
        lemma_node_at_push(d.dirs[path[0] as int], path.drop_first(), j);
    }
}

proof fn lemma_skip_step(s: Seq<usize>, i: int)
    requires
        0 <= i < s.len(),
    ensures
        s.skip(i).drop_first() == s.skip(i + 1),
        s.skip(i)[0] == s[i],
        s.skip(i).len() > 0,
{
    assert(s.skip(i).drop_first() =~= s.skip(i + 1));
}

/// The position of the first directory of `dirs` with identifier `id`.
pub fn position_of_id(dirs: &Vec<Directory>, id: usize) -> (r: Option<usize>)
    ensures
        r == find_child(views_of(dirs@), id),
{
    let ghost vs = views_of(dirs@);
    let n = dirs.len();
    let mut i: usize = 0;
    while i < n
        invariant
            n == dirs@.len(),
            vs == views_of(dirs@),
            0 <= i <= n,
            forall|j: int| 0 <= j < i ==> vs[j].id != id,
        decreases n - i,
    {
        proof {
            lemma_view_unfold(dirs@[i as int]);
        }
        if dirs[i].id == id {
            proof {
                lemma_find_some(vs, id, i);
            }
            return Some(i);
        }
        i += 1;
    }
    proof {
        lemma_find_none(vs, id);
    }
    None
}

/// The position of the child of `current_dir` whose identifier is `current_position`.
pub fn find_directory_index_by_id(current_dir: &Directory, current_position: usize) -> (r: Option<usize>)
    ensures
        r == find_child(current_dir@.dirs, current_position),
{
    proof {
        lemma_view_unfold(*current_dir);
    }
    position_of_id(&current_dir.directories, current_position)
}

/// Finding by identifier looks at identifiers only.
proof fn lemma_find_same_ids(a: Seq<DirView>, b: Seq<DirView>, id: usize)
    requires
        a.len() == b.len(),
        forall|i: int| 0 <= i < a.len() ==> (#[trigger] a[i]).id == b[i].id,
    ensures
        find_child(a, id) == find_child(b, id),
{
    assert forall|i: usize| is_first_match(a, id, i) <==> is_first_match(b, id, i) by {
        if is_first_match(a, id, i) {
            assert forall|j: int| 0 <= j < i implies b[j].id != id by {
                assert(a[j].id == b[j].id);
            }
        }
        if is_first_match(b, id, i) {
            assert forall|j: int| 0 <= j < i implies a[j].id != id by {
                assert(a[j].id == b[j].id);
            }
        }
    }
    if exists|i: usize| is_first_match(a, id, i) {
        let x = choose|i: usize| is_first_match(a, id, i);
        lemma_find_some(a, id, x);
        lemma_find_some(b, id, x);
    }
}

/// The path that `resolve` returns exists.
pub proof fn lemma_resolve_valid(d: DirView, stack: Seq<usize>)
    ensures
        valid_path(d, resolve(d, stack)),
        resolve(d, stack).len() <= stack.len(),
    decreases stack.len(),
{
    if stack.len() > 0 {
        if let Some(j) = find_child(d.dirs, stack[0]) {
            let rest = resolve(d.dirs[j as int], stack.drop_first());
            lemma_resolve_valid(d.dirs[j as int], stack.drop_first());
            let p = seq![j] + rest;
            assert(p[0] == j);
            assert(p.drop_first() =~= rest);
        } else {
        }
    }
}

/// After the children of the node at `p` are replaced, that node holds them.
pub proof fn lemma_node_after_set(d: DirView, p: Seq<usize>, dirs: Seq<DirView>, files: Seq<FileView>)
    requires
        valid_path(d, p),
    ensures
        valid_path(with_children_at(d, p, dirs, files), p),
        node_at(with_children_at(d, p, dirs, files), p) == (DirView { dirs, files, ..node_at(d, p) }),
    decreases p.len(),
{
    if p.len() > 0 {
        lemma_node_after_set(d.dirs[p[0] as int], p.drop_first(), dirs, files);
    }
}

/// A stack that resolves fully to `p` still resolves to `p` after the
/// children of the node at `p` are replaced.
pub proof fn lemma_resolve_after_set(
    d: DirView,
    stack: Seq<usize>,
    p: Seq<usize>,
    dirs: Seq<DirView>,
    files: Seq<FileView>,
)
    requires
        resolve(d, stack) == p,
        p.len() == stack.len(),
    ensures
        resolve(with_children_at(d, p, dirs, files), stack) == p,
    decreases stack.len(),
{
    if stack.len() > 0 {
        let j = find_child(d.dirs, stack[0])->Some_0;
        let rest = resolve(d.dirs[j as int], stack.drop_first());
        assert(p[0] == j);
        assert(p.drop_first() =~= rest);
        lemma_resolve_valid(d, stack);
        let d2 = with_children_at(d, p, dirs, files);
        let sub = with_children_at(d.dirs[j as int], rest, dirs, files);
        assert(d2.dirs == d.dirs.update(j as int, sub));
        assert forall|i: int| 0 <= i < d.dirs.len() implies (#[trigger] d.dirs[i]).id == d2.dirs[i].id by {
            if i == j {
                if rest.len() == 0 {
                } else {
                }
            }
        }
        lemma_find_same_ids(d.dirs, d2.dirs, stack[0]);
        lemma_resolve_after_set(d.dirs[j as int], stack.drop_first(), rest, dirs, files);
        assert(seq![j] + rest =~= p);
    }
}

impl Directory {
    /// An empty root: identifier 0, no name, no children.
    pub fn new() -> (r: Self)
        ensures
            r@ == (DirView {
                id: 0,
                name: seq![],
                dirs: seq![],
                files: seq![],
                metadata: FileMetadata { created: None, modified: None, accessed: None, writable: true },
            }),
    {
        let r = Directory {
            id: 0,
            name: String::new(),
            directories: Vec::new(),
            files: Vec::new(),
            metadata: FileMetadata::new(),
        };
        proof {
            lemma_view_unfold(r);
            assert(r@.dirs =~= seq![]);
            assert(r@.files =~= seq![]);
        }
        r
    }

    pub fn build(
        id: usize,
        name: &str,
        directories: Vec<Directory>,
        files: Vec<File>,
        metadata: FileMetadata,
    ) -> (r: Self)
        ensures
            r@ == (DirView {
                id,
                name: name@,
                dirs: views_of(directories@),
                files: file_views_of(files@),
                metadata,
            }),
    {
        let r = Directory { id, name: String::from_str(name), directories, files, metadata };
        proof {
            lemma_view_unfold(r);
        }
        r
    }

    /// Drops the materialized children and the name.
    pub fn clear_directories(&mut self)
        ensures
            final(self)@ == (DirView { name: seq![], dirs: seq![], files: seq![], ..old(self)@ }),
    {
        self.directories.clear();
        self.files.clear();
        self.name = String::new();
        proof {
            lemma_view_unfold(*self);
            lemma_view_unfold(*old(self));
            assert(self@.dirs =~= seq![]);
            assert(self@.files =~= seq![]);
        }
    }

    pub fn get_directory_id(&self) -> (r: usize)
        ensures
            r == self@.id,
    {
        proof {
            lemma_view_unfold(*self);
        }
        self.id
    }

    /// The identifiers of the child directories, in order.
    pub fn get_directory_ids(&self) -> (r: Vec<usize>)
        ensures
            r@ == self@.dirs.map_values(|d: DirView| d.id),
    {
        proof {
            lemma_view_unfold(*self);
        }
        let mut dir_ids: Vec<usize> = Vec::new();
        let n = self.directories.len();
        let mut i: usize = 0;
        while i < n
            invariant
                n == self.directories@.len(),
                self@.dirs == views_of(self.directories@),
                0 <= i <= n,
                dir_ids@ == self@.dirs.take(i as int).map_values(|d: DirView| d.id),
            decreases n - i,
        {
            proof {
                lemma_view_unfold(self.directories@[i as int]);
            }
            dir_ids.push(self.directories[i].id);
            proof {
                assert(dir_ids@ =~= self@.dirs.take(i + 1).map_values(|d: DirView| d.id));
            }
            i += 1;
        }
        proof {
            assert(self@.dirs.take(n as int) =~= self@.dirs);
        }
        dir_ids
    }

    pub fn get_name(&self) -> (r: &str)
        ensures
            r@ == self@.name,
    {
        proof {
            lemma_view_unfold(*self);
        }
        self.name.as_str()
    }

    pub fn get_directories(&self) -> (r: &Vec<Directory>)
        ensures
            views_of(r@) == self@.dirs,
    {
        proof {
            lemma_view_unfold(*self);
        }
        &self.directories
    }

    pub fn get_files(&self) -> (r: &Vec<File>)
        ensures
            file_views_of(r@) == self@.files,
    {
        proof {
            lemma_view_unfold(*self);
        }
        &self.files
    }

    /// The node that `path` leads to.
    fn node_ref(&self, path: &Vec<usize>) -> (r: &Directory)
        requires
            valid_path(self@, path@),
        ensures
            r@ == node_at(self@, path@),
    {
        let mut cur: &Directory = self;
        let n = path.len();
        let mut i: usize = 0;
        proof {
            assert(path@.skip(0) =~= path@);
        }
        while i < n
            invariant
                n == path@.len(),
                0 <= i <= n,
                valid_path(cur@, path@.skip(i as int)),
                node_at(self@, path@) == node_at(cur@, path@.skip(i as int)),
            decreases n - i,
        {
            proof {
                lemma_skip_step(path@, i as int);
                lemma_view_unfold(*cur);
            }
            let j = path[i];
            cur = &cur.directories[j];
            i += 1;
        }
        proof {
            assert(path@.skip(n as int) =~= seq![]);
        }
        cur
    }

    /// The positions along which `id_stack` resolves from this node.
    fn resolve_indices(&self, id_stack: &Vec<usize>) -> (r: Vec<usize>)
        ensures
            r@ == resolve(self@, id_stack@),
            valid_path(self@, r@),
    {
        let mut cur: &Directory = self;
        let mut path: Vec<usize> = Vec::new();
        let n = id_stack.len();
        let mut i: usize = 0;
        let mut done = false;
        proof {
            assert(id_stack@.skip(0) =~= id_stack@);
            assert(path@ + resolve(self@, id_stack@) =~= resolve(self@, id_stack@));
        }
        while i < n && !done
            invariant
                n == id_stack@.len(),
                0 <= i <= n,
                valid_path(self@, path@),
                cur@ == node_at(self@, path@),
                resolve(self@, id_stack@) == path@ + resolve(cur@, id_stack@.skip(i as int)),
                done ==> resolve(cur@, id_stack@.skip(i as int)) == Seq::<usize>::empty(),
            decreases n - i + if done { 0int } else { 1int },
        {
            proof {
                lemma_skip_step(id_stack@, i as int);
            }
            match find_directory_index_by_id(cur, id_stack[i]) {
                Some(j) => {
                    proof {
                        lemma_view_unfold(*cur);
                        lemma_node_at_push(self@, path@, j);
                        let rest = resolve(cur@.dirs[j as int], id_stack@.skip(i + 1));
                        assert(path@ + (seq![j] + rest) =~= path@.push(j) + rest);
                    }
                    cur = &cur.directories[j];
                    path.push(j);
                    i += 1;
                },
                None => {
                    done = true;
                },
            }
        }
        proof {
            if !done {
                assert(id_stack@.skip(n as int) =~= seq![]);
            }
            assert(path@ + Seq::<usize>::empty() =~= path@);
        }
        path
    }

    /// The directory that `id_stack` addresses, or the deepest one on its way
    /// when an identifier is not found.
    pub fn find_directory_by_id(&self, id_stack: &Vec<usize>) -> (r: &Directory)
        ensures
            r@ == node_at(self@, resolve(self@, id_stack@)),
    {
        let path = self.resolve_indices(id_stack);
        self.node_ref(&path)
    }

    /// The positions that the entering walk for `child` takes, if it finds it.
    fn enter_indices(&self, id_stack: &Vec<usize>, child: usize) -> (r: Option<Vec<usize>>)
        ensures
            match r {
                Some(p) => enter_walk(self@, id_stack@, child) == Some(p@) && valid_path(self@, p@),
                None => enter_walk(self@, id_stack@, child) is None,
            },
    {
        let mut cur: &Directory = self;
        let mut path: Vec<usize> = Vec::new();
        let n = id_stack.len();
        let mut i: usize = 0;
        proof {
            assert(id_stack@.skip(0) =~= id_stack@);
        }
        while i < n
            invariant
                n == id_stack@.len(),
                0 <= i <= n,
                valid_path(self@, path@),
                cur@ == node_at(self@, path@),
                enter_walk(self@, id_stack@, child) == match enter_walk(
                    cur@,
                    id_stack@.skip(i as int),
                    child,
                ) {
                    Some(q) => Some(path@ + q),
                    None => None::<Seq<usize>>,
                },
            decreases n - i,
        {
            proof {
                lemma_skip_step(id_stack@, i as int);
                lemma_view_unfold(*cur);
            }
            match find_directory_index_by_id(cur, child) {
                Some(j) => {
                    proof {
                        lemma_node_at_push(self@, path@, j);
                        assert(path@ + seq![j] =~= path@.push(j));
                    }
                    path.push(j);
                    return Some(path);
                },
                None => {},
            }
            match find_directory_index_by_id(cur, id_stack[i]) {
                Some(k) => {
                    proof {
                        lemma_node_at_push(self@, path@, k);
                        let w = enter_walk(cur@.dirs[k as int], id_stack@.skip(i + 1), child);
                        if w is Some {
                            assert(path@ + (seq![k] + w->0) =~= path@.push(k) + w->0);
                        }
                    }
                    cur = &cur.directories[k];
                    path.push(k);
                },
                None => {},
            }
            i += 1;
        }
        proof {
            assert(id_stack@.skip(n as int) =~= seq![]);
        }
        None
    }

    /// Replaces the children of the node that `path` (from position `k` on) leads to.
    fn set_children_at(
        &mut self,
        path: &Vec<usize>,
        k: usize,
        dirs: Vec<Directory>,
        files: Vec<File>,
    )
        requires
            k <= path@.len(),
            valid_path(old(self)@, path@.skip(k as int)),
        ensures
            final(self)@ == with_children_at(
                old(self)@,
                path@.skip(k as int),
                views_of(dirs@),
                file_views_of(files@),
            ),
        decreases path@.len() - k,
    {
        proof {
            lemma_view_unfold(*old(self));
        }
        if k == path.len() {
            self.directories = dirs;
            self.files = files;
            proof {
                lemma_view_unfold(*self);
                assert(path@.skip(k as int) =~= seq![]);
            }
        } else {
            proof {
                lemma_skip_step(path@, k as int);
            }
            let j = path[k];
            let mut child = self.directories.remove(j);
            proof {
                assert(child@ == old(self)@.dirs[j as int]);
            }
            child.set_children_at(path, k + 1, dirs, files);
            self.directories.insert(j, child);
            proof {
                lemma_view_unfold(*self);
                let expect = old(self)@.dirs.update(
                    j as int,
                    with_children_at(
                        old(self)@.dirs[j as int],
                        path@.skip(k + 1),
                        views_of(dirs@),
                        file_views_of(files@),
                    ),
                );
                assert(self@.dirs =~= expect);
            }
        }
    }

    /// Turns a listing into child nodes: a new directory node for each
    /// directory entry, numbered from the counter, and a file for each file
    /// entry; other entries are skipped.
    fn read_entries(entries: &Vec<DirEntry>, directories_read: &mut usize) -> (r: (
        Vec<Directory>,
        Vec<File>,
    ))
        requires
            *old(directories_read) + entries@.len() <= usize::MAX,
        ensures
            views_of(r.0@) == listed_dirs(entries@, *old(directories_read)),
            file_views_of(r.1@) == listed_files(entries@),
            *final(directories_read) == *old(directories_read) + dir_count(entries@),
    {
        let ghost start = *directories_read;
        let mut directories: Vec<Directory> = Vec::new();
        let mut files: Vec<File> = Vec::new();
        let n = entries.len();
        let mut i: usize = 0;
        proof {
            assert(entries@.take(0) =~= seq![]);
            assert(views_of(directories@) =~= seq![]);
            assert(file_views_of(files@) =~= seq![]);
        }
        while i < n
            invariant
                n == entries@.len(),
                0 <= i <= n,
                start + n <= usize::MAX,
                views_of(directories@) == listed_dirs(entries@.take(i as int), start),
                file_views_of(files@) == listed_files(entries@.take(i as int)),
                *directories_read == start + dir_count(entries@.take(i as int)),
            decreases n - i,
        {
            let ghost pre = entries@.take(i as int);
            let ghost cur = entries@.take(i + 1);
            proof {
                assert(cur.drop_last() =~= pre);
                assert(cur.last() == entries@[i as int]);
                lemma_listed_ids(pre, start);
            }
            let entry = &entries[i];
            match entry.kind {
                EntryKind::Directory => {
                    let d = Directory {
                        id: *directories_read,
                        name: entry.name.clone(),
                        directories: Vec::new(),
                        files: Vec::new(),
                        metadata: entry.metadata,
                    };
                    proof {
                        lemma_view_unfold(d);
                        assert(d@.dirs =~= seq![]);
                        assert(d@.files =~= seq![]);
                    }
                    let ghost before = directories@;
                    directories.push(d);
                    proof {
                        assert(views_of(directories@) =~= views_of(before).push(d@));
                    }
                    *directories_read = *directories_read + 1;
                },
                EntryKind::File => {
                    let f = File::build(entry.name.as_str(), entry.metadata);
                    let ghost before = files@;
                    files.push(f);
                    proof {
                        assert(file_views_of(files@) =~= file_views_of(before).push(f@));
                    }
                },
                EntryKind::Other => {},
            }
            i += 1;
        }
        proof {
            assert(entries@.take(n as int) =~= entries@);
        }
        (directories, files)
    }

    /// Materializes this node from one read of its directory: on success its
    /// children are replaced wholesale by those of the listing; on failure
    /// nothing changes and the error is handed back.
    pub fn write_directory_content(
        &mut self,
        listing: Result<Vec<DirEntry>, IoError>,
        directories_read: &mut usize,
    ) -> (r: Result<(), IoError>)
        requires
            listing matches Ok(es) ==> *old(directories_read) + es@.len() <= usize::MAX,
        ensures
            match listing {
                Ok(es) => {
                    &&& r is Ok
                    &&& final(self)@ == (DirView {
                        dirs: listed_dirs(es@, *old(directories_read)),
                        files: listed_files(es@),
                        ..old(self)@
                    })
                    &&& *final(directories_read) == *old(directories_read) + dir_count(es@)
                },
                Err(e) => {
                    &&& r == Err::<(), IoError>(e)
                    &&& final(self)@ == old(self)@
                    &&& *final(directories_read) == *old(directories_read)
                },
            },
    {
        match listing {
            Ok(entries) => {
                let (directories, files) = Self::read_entries(&entries, directories_read);
                self.directories = directories;
                self.files = files;
                proof {
                    lemma_view_unfold(*self);
                    lemma_view_unfold(*old(self));
                }
                Ok(())
            },
            Err(error) => Err(error),
        }
    }

    /// One entering step. The walk for `selected_directory_id` runs over
    /// `id_stack` (which already ends with that identifier). When it finds the
    /// directory, the directory's name is joined onto `current_path` and the
    /// directory is materialized from `listing`, the read of that joined path.
    /// When it does not, or the read failed, nothing changes.
    pub fn insert_new_sub_directory(
        &mut self,
        id_stack: &Vec<usize>,
        current_path: &mut String,
        directories_read: &mut usize,
        selected_directory_id: usize,
        listing: Result<Vec<DirEntry>, IoError>,
    ) -> (r: Result<(), IoError>)
        requires
            listing matches Ok(es) ==> *old(directories_read) + es@.len() <= usize::MAX,
        ensures
            match enter_walk(old(self)@, id_stack@, selected_directory_id) {
                None => {
                    &&& r is Ok
                    &&& final(self)@ == old(self)@
                    &&& final(current_path)@ == old(current_path)@
                    &&& *final(directories_read) == *old(directories_read)
                },
                Some(p) => match listing {
                    Ok(es) => {
                        &&& r is Ok
                        &&& final(self)@ == with_children_at(
                            old(self)@,
                            p,
                            listed_dirs(es@, *old(directories_read)),
                            listed_files(es@),
                        )
                        &&& final(current_path)@ == append_segment_spec(
                            old(current_path)@,
                            node_at(old(self)@, p).name,
                        )
                        &&& *final(directories_read) == *old(directories_read) + dir_count(es@)
                    },
                    Err(e) => {
                        &&& r == Err::<(), IoError>(e)
                        &&& final(self)@ == old(self)@
                        &&& final(current_path)@ == old(current_path)@
                        &&& *final(directories_read) == *old(directories_read)
                    },
                },
            },
    {
        match self.enter_indices(id_stack, selected_directory_id) {
            None => Ok(()),
            Some(path) => match listing {
                Err(error) => Err(error),
                Ok(entries) => {
                    let new_path = append_segment(current_path.as_str(), self.node_ref(&path).get_name());
                    let (directories, files) = Self::read_entries(&entries, directories_read);
                    proof {
                        assert(path@.skip(0) =~= path@);
                    }
                    self.set_children_at(&path, 0, directories, files);
                    *current_path = new_path;
                    Ok(())
                },
            },
        }
    }

    /// Drops the children of the directory that `id_stack` resolves to and
    /// returns how many child directories it had.
    pub fn collapse_directory(&mut self, id_stack: &Vec<usize>) -> (r: usize)
        ensures
            r == node_at(old(self)@, resolve(old(self)@, id_stack@)).dirs.len(),
            final(self)@ == with_children_at(
                old(self)@,
                resolve(old(self)@, id_stack@),
                seq![],
                seq![],
            ),
    {
        let path = self.resolve_indices(id_stack);
        let count = self.node_ref(&path).get_directories().len();
        let no_dirs: Vec<Directory> = Vec::new();
        let no_files: Vec<File> = Vec::new();
        proof {
            assert(path@.skip(0) =~= path@);
            assert(views_of(no_dirs@) =~= seq![]);
            assert(file_views_of(no_files@) =~= seq![]);
        }
        self.set_children_at(&path, 0, no_dirs, no_files);
        count
    }

    /// The name of the directory that an entering step for
    /// `selected_directory_id` over `id_stack` reaches, if the walk finds it.
    pub fn entering_name(&self, id_stack: &Vec<usize>, selected_directory_id: usize) -> (r: Option<&str>)
        ensures
            match enter_walk(self@, id_stack@, selected_directory_id) {
                Some(p) => r matches Some(n) && n@ == node_at(self@, p).name,
                None => r is None,
            },
    {
        match self.enter_indices(id_stack, selected_directory_id) {
            Some(path) => Some(self.node_ref(&path).get_name()),
            None => None,
        }
    }

    /// The child directories, for the caller to change in place.
    pub fn get_mut_directories(&mut self) -> (r: &mut Vec<Directory>)
        ensures
            views_of(r@) == old(self)@.dirs,
            final(self)@ == (DirView { dirs: views_of(final(r)@), ..old(self)@ }),
    {
        proof {
            lemma_view_unfold(*old(self));
        }
        proof {
            broadcast use lemma_model_fields;
        }
        &mut self.directories
    }

    /// The files, for the caller to change in place.
    pub fn get_mut_files(&mut self) -> (r: &mut Vec<File>)
        ensures
            file_views_of(r@) == old(self)@.files,
            final(self)@ == (DirView { files: file_views_of(final(r)@), ..old(self)@ }),
    {
        proof {
            lemma_view_unfold(*old(self));
        }
        proof {
            broadcast use lemma_model_fields;
        }
        &mut self.files
    }

    pub fn get_metadata(&self) -> (r: &FileMetadata)
        ensures
            *r == self@.metadata,
    {
        proof {
            lemma_view_unfold(*self);
        }
        &self.metadata
    }
}

} // verus!
