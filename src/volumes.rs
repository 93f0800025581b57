//! Storage roots (mounted volumes, drive letters) offered as alternate entry
//! points, and the paths through which one of them becomes the new root.
use vstd::prelude::*;
use vstd::string::*;

use crate::directory::{file_views_of, views_of, DirView, Directory};
use crate::file::{File, FileMetadata};

verus! {

/// What follows the last separator of `p` (all of `p` when it has none).
pub open spec fn last_component(p: Seq<char>) -> Seq<char>
    decreases p.len(),
{
    if p.len() == 0 || p.last() == '/' {
        seq![]
    } else {
        last_component(p.drop_last()).push(p.last())
    }
}

/// The stub directory that stands for the storage root at `path`, listed at position `i`.
pub open spec fn storage_root_node(i: usize, path: Seq<char>) -> DirView {
    DirView {
        id: i,
        name: last_component(path),
        dirs: seq![],
        files: seq![],
        metadata: FileMetadata { created: None, modified: None, accessed: None, writable: true },
    }
}

/// The stub directories for the storage roots at `paths`, in order.
pub open spec fn storage_views(paths: Seq<String>) -> Seq<DirView> {
    Seq::new(paths.len(), |i: int| storage_root_node(i as usize, paths[i]@))
}

/// The name under which the storage root at `path` is shown.
pub fn storage_root_name(path: &str) -> (r: String)
    ensures
        r@ == last_component(path@),
{
    let n = path.unicode_len();
    let mut start: usize = 0;
    let mut i: usize = 0;
    proof {
        assert(path@.take(0) =~= seq![]);
        assert(path@.subrange(0, 0) =~= seq![]);
    }
    while i < n
        invariant
            n == path@.len(),
            0 <= start <= i <= n,
            last_component(path@.take(i as int)) == path@.subrange(start as int, i as int),
        decreases n - i,
    {
        proof {
            assert(path@.take(i + 1).drop_last() =~= path@.take(i as int));
            assert(path@.take(i + 1).last() == path@[i as int]);
        }
        if path.get_char(i) == '/' {
            start = i + 1;
            proof {
                assert(path@.subrange(start as int, i + 1) =~= seq![]);
            }
        } else {
            proof {
                assert(path@.subrange(start as int, i + 1) =~= path@.subrange(
                    start as int,
                    i as int,
                ).push(path@[i as int]));
            }
        }
        i += 1;
    }
    proof {
        assert(path@.take(n as int) =~= path@);
    }
    String::from_str(path.substring_char(start, n))
}

/// One stub directory for each storage root, with its position as identifier.
pub fn storage_nodes(paths: &Vec<String>) -> (r: Vec<Directory>)
    ensures
        r@.map_values(|d: Directory| d@) == storage_views(paths@),
{
    let mut nodes: Vec<Directory> = Vec::new();
    let n = paths.len();
    let mut i: usize = 0;
    proof {
        assert(storage_views(paths@.take(0)) =~= seq![]);
        assert(nodes@.map_values(|d: Directory| d@) =~= seq![]);
    }
    while i < n
        invariant
            n == paths@.len(),
            0 <= i <= n,
            nodes@.len() == i,
            nodes@.map_values(|d: Directory| d@) == storage_views(paths@.take(i as int)),
        decreases n - i,
    {
        let name = storage_root_name(paths[i].as_str());
        let no_dirs: Vec<Directory> = Vec::new();
        let no_files: Vec<File> = Vec::new();
        proof {
            assert(views_of(no_dirs@) =~= seq![]);
            assert(file_views_of(no_files@) =~= seq![]);
        }
        let node = Directory::build(i, name.as_str(), no_dirs, no_files, FileMetadata::new());
        let ghost before = nodes@;
        nodes.push(node);
        proof {
            assert(node@ == storage_root_node(i, paths@[i as int]@));
            let pre = storage_views(paths@.take(i as int));
            let post = storage_views(paths@.take(i + 1));
            assert forall|k: int| 0 <= k < i implies post[k] == pre[k] by {
                assert(paths@.take(i + 1)[k] == paths@.take(i as int)[k]);
            }
            assert(post[i as int] == node@);
            let got = nodes@.map_values(|d: Directory| d@);
            assert forall|k: int| 0 <= k < i implies got[k] == post[k] by {
                assert(nodes@[k] == before[k]);
                assert(before.map_values(|d: Directory| d@)[k] == pre[k]);
            }
            assert(got[i as int] == node@);
            assert(got =~= post);
        }
        i += 1;
    }
    proof {
        assert(paths@.take(n as int) =~= paths@);
    }
    nodes
}

} // verus!
