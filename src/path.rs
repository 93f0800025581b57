//! Path algebra: joining a segment onto a path, trimming the last segment,
//! and recognising drive-letter volume roots.
use vstd::prelude::*;
use vstd::string::*;

verus! {

/// The platform family whose path conventions apply.
#[derive(Debug, Clone, Copy, PartialEq, Eq, Structural)]
pub enum OperatingSystem {
    MacOs,
    Windows,
    Linux,
    Unknown,
}

/// `c` is an uppercase ASCII letter.
pub open spec fn is_drive_letter_spec(c: char) -> bool {
    'A' <= c && c <= 'Z'
}

/// `s` is a bare volume root such as `C:`.
pub open spec fn is_drive_segment(s: Seq<char>) -> bool {
    s.len() == 2 && is_drive_letter_spec(s[0]) && s[1] == ':'
}

/// `s` can stand as one component of a path: non-empty, without a separator.
pub open spec fn is_segment_name(s: Seq<char>) -> bool {
    s.len() > 0 && forall|i: int| 0 <= i < s.len() ==> s[i] != '/'
}

/// The non-empty components of `s` between separators, left to right.
pub open spec fn path_segments(s: Seq<char>) -> Seq<Seq<char>>
    decreases s.len(),
{
    if s.len() == 0 {
        seq![]
    } else {
        let prev = path_segments(s.drop_last());
        let c = s.last();
        if c == '/' {
            prev
        } else if s.len() >= 2 && s[s.len() - 2] != '/' {
            prev.drop_last().push(prev.last().push(c))
        } else {
            prev.push(seq![c])
        }
    }
}

/// How one retained segment is written back: a leading drive root on Windows
/// stands bare, every other segment gets a separator in front.
pub open spec fn segment_piece(seg: Seq<char>, leading: bool, os: OperatingSystem) -> Seq<char> {
    if leading && os == OperatingSystem::Windows && is_drive_segment(seg) {
        seg
    } else {
        seq!['/'] + seg
    }
}

/// The path that the segments `segs` spell on platform `os`.
pub open spec fn join_segments(segs: Seq<Seq<char>>, os: OperatingSystem) -> Seq<char>
    decreases segs.len(),
{
    if segs.len() == 0 {
        seq![]
    } else {
        join_segments(segs.drop_last(), os) + segment_piece(segs.last(), segs.len() == 1, os)
    }
}

/// `p` without its last non-empty segment.
pub open spec fn strip_last_segment(p: Seq<char>, os: OperatingSystem) -> Seq<char> {
    let segs = path_segments(p);
    if segs.len() == 0 {
        seq![]
    } else {
        join_segments(segs.drop_last(), os)
    }
}

/// `p` is a bare root that already ends in its separator: the file system
/// root `/`, or a drive root such as `C:/`.
pub open spec fn is_bare_root(p: Seq<char>) -> bool {
    p == seq!['/'] || (p.len() == 3 && is_drive_letter_spec(p[0]) && p[1] == ':' && p[2] == '/')
}

/// `p` followed by `name`, with a separator between unless `p` is a bare
/// root. Any other path gets the separator, even one that already ends in
/// `/`; a bare drive root without its separator (`C:`) gets one too.
pub open spec fn append_segment_spec(p: Seq<char>, name: Seq<char>) -> Seq<char> {
    if is_bare_root(p) {
        p + name
    } else {
        p + seq!['/'] + name
    }
}

/// `p` is written the way this algebra writes paths on `os`.
pub open spec fn is_canonical_path(p: Seq<char>, os: OperatingSystem) -> bool {
    join_segments(path_segments(p), os) == p
}

pub fn is_drive_letter(character: &char) -> (r: bool)
    ensures
        r == is_drive_letter_spec(*character),
{
    'A' <= *character && *character <= 'Z'
}

pub fn is_drive_indentifier(directory_name: &str) -> (r: bool)
    ensures
        r == is_drive_segment(directory_name@),
{
    if directory_name.unicode_len() != 2 {
        return false;
    }
    let first = directory_name.get_char(0);
    let second = directory_name.get_char(1);
    is_drive_letter(&first) && second == ':'
}

/// Joins `name` onto `path`.
pub fn append_segment(path: &str, name: &str) -> (r: String)
    ensures
        r@ == append_segment_spec(path@, name@),
{
    let n = path.unicode_len();
    let mut out = String::from_str(path);
    proof {
        reveal_strlit("/");
    }
    let bare_root = if n == 1 {
        path.get_char(0) == '/'
    } else if n == 3 {
        is_drive_letter(&path.get_char(0)) && path.get_char(1) == ':' && path.get_char(2) == '/'
    } else {
        false
    };
    assert(bare_root == is_bare_root(path@)) by {
        if n == 1 && path@[0] == '/' {
            assert(path@ =~= seq!['/']);
        }
    }
    if !bare_root {
        out.append("/");
    }
    out.append(name);
    out
}

proof fn lemma_segments_step(s: Seq<char>, i: int)
    requires
        0 <= i < s.len(),
    ensures
        s.subrange(0, i + 1).drop_last() == s.subrange(0, i),
        s.subrange(0, i + 1).last() == s[i],
{
    assert(s.subrange(0, i + 1).drop_last() =~= s.subrange(0, i));
}


/// `bounds` gives, as start and end positions, the segments of the first `i` characters of `p`;
/// an unfinished last segment ends at `i`.
spec fn bounds_match(p: Seq<char>, i: int, bounds: Seq<(usize, usize)>) -> bool {
    let segs = path_segments(p.subrange(0, i));
    &&& bounds.len() == segs.len()
    &&& forall|k: int|
        0 <= k < bounds.len() ==> {
            &&& (#[trigger] bounds[k]).0 < bounds[k].1 <= i
            &&& p.subrange(bounds[k].0 as int, bounds[k].1 as int) == segs[k]
        }
    &&& (i > 0 && p[i - 1] != '/') ==> bounds.len() > 0 && bounds.last().1 == i
}

fn segment_bounds(path: &str) -> (r: Vec<(usize, usize)>)
    ensures
        bounds_match(path@, path@.len() as int, r@),
{
    let n = path.unicode_len();
    let mut bounds: Vec<(usize, usize)> = Vec::new();
    let mut i: usize = 0;
    while i < n
        invariant
            n == path@.len(),
            0 <= i <= n,
            bounds_match(path@, i as int, bounds@),
        decreases n - i,
    {
        let c = path.get_char(i);
        proof {
            lemma_segments_step(path@, i as int);
        }
        let ghost old_bounds = bounds@;
        let ghost prev = path_segments(path@.subrange(0, i as int));
        let ghost segs = path_segments(path@.subrange(0, i + 1));
        if c == '/' {
        } else if i > 0 && path.get_char(i - 1) != '/' {
            let last = bounds.len() - 1;
            let (a, _) = bounds[last];
            bounds.set(last, (a, i + 1));
            proof {
                assert(path@.subrange(0, i + 1)[i - 1] == path@[i - 1]);
                assert(path@.subrange(a as int, i + 1) =~= path@.subrange(a as int, i as int).push(c));
                assert forall|k: int| 0 <= k < bounds@.len() implies {
                    &&& (#[trigger] bounds@[k]).0 < bounds@[k].1 <= i + 1
                    &&& path@.subrange(bounds@[k].0 as int, bounds@[k].1 as int) == segs[k]
                } by {
                    if k < bounds@.len() - 1 {
                        assert(bounds@[k] == old_bounds[k]);
                        assert(segs[k] == prev[k]);
                    }
                }
            }
        } else {
            bounds.push((i, i + 1));
            proof {
                if i > 0 {
                    assert(path@.subrange(0, i + 1)[i - 1] == path@[i - 1]);
                }
                assert(path@.subrange(i as int, i + 1) =~= seq![c]);
                assert forall|k: int| 0 <= k < bounds@.len() implies {
                    &&& (#[trigger] bounds@[k]).0 < bounds@[k].1 <= i + 1
                    &&& path@.subrange(bounds@[k].0 as int, bounds@[k].1 as int) == segs[k]
                } by {
                    if k < bounds@.len() - 1 {
                        assert(bounds@[k] == old_bounds[k]);
                        assert(segs[k] == prev[k]);
                    }
                }
            }
        }
        i += 1;
    }
    proof {
        assert(path@.subrange(0, n as int) =~= path@);
    }
    bounds
}

/// Trims the last segment off `path`, written back in the conventions of `operating_system`.
pub fn remove_directory_from_path(path: &str, operating_system: &OperatingSystem) -> (r: String)
    ensures
        r@ == strip_last_segment(path@, *operating_system),
{
    let bounds = segment_bounds(path);
    let ghost segs = path_segments(path@);
    let mut out = String::new();
    proof {
        reveal_strlit("/");
        assert(path@.subrange(0, path@.len() as int) =~= path@);
    }
    if bounds.len() == 0 {
        return out;
    }
    let keep = bounds.len() - 1;
    let mut k: usize = 0;
    while k < keep
        invariant
            bounds_match(path@, path@.len() as int, bounds@),
            segs == path_segments(path@),
            segs == path_segments(path@.subrange(0, path@.len() as int)),
            segs.len() == bounds@.len(),
            keep == bounds@.len() - 1,
            0 <= k <= keep,
            out@ == join_segments(segs.take(k as int), *operating_system),
        decreases keep - k,
    {
        let (a, b) = bounds[k];
        let seg = path.substring_char(a, b);
        assert(seg@ == segs[k as int]);
        let ghost before = out@;
        proof {
            reveal_strlit("/");
        }
        if k == 0 && *operating_system == OperatingSystem::Windows && is_drive_indentifier(seg) {
            out.append(seg);
        } else {
            out.append("/");
            out.append(seg);
            assert(out@ =~= before + (seq!['/'] + seg@));
        }
        proof {
            assert(segs.take(k + 1).drop_last() =~= segs.take(k as int));
            assert(segs.take(k + 1).last() == segs[k as int]);
        }
        k += 1;
    }
    proof {
        assert(segs.take(keep as int) =~= segs.drop_last());
    }
    out
}

/// Every segment is a non-empty run without separators.
pub proof fn lemma_segments_are_names(s: Seq<char>)
    ensures
        forall|k: int| 0 <= k < path_segments(s).len() ==> is_segment_name(#[trigger] path_segments(s)[k]),
        s.len() > 0 && s.last() != '/' ==> path_segments(s).len() > 0,
    decreases s.len(),
{
    if s.len() > 0 {
        lemma_segments_are_names(s.drop_last());
        let prev = path_segments(s.drop_last());
        let c = s.last();
        if c == '/' {
        } else if s.len() >= 2 && s[s.len() - 2] != '/' {
            let sd = s.drop_last();
            assert(sd.last() == s[s.len() - 2]);
            let w = prev.last().push(c);
            assert(is_segment_name(prev[prev.len() - 1]));
            assert forall|i: int| 0 <= i < w.len() implies w[i] != '/' by {
                if i < w.len() - 1 {
                    assert(w[i] == prev.last()[i]);
                }
            }
            let r = prev.drop_last().push(w);
            assert forall|k: int| 0 <= k < r.len() implies is_segment_name(#[trigger] r[k]) by {
                if k < r.len() - 1 {
                    assert(r[k] == prev[k]);
                }
            }
        } else {
            let r = prev.push(seq![c]);
            assert forall|k: int| 0 <= k < r.len() implies is_segment_name(#[trigger] r[k]) by {
                if k < r.len() - 1 {
                    assert(r[k] == prev[k]);
                }
            }
        }
    }
}

/// Appending a well-formed name after a separator (or to nothing) adds exactly one segment.
pub proof fn lemma_segments_append_name(p: Seq<char>, name: Seq<char>)
    requires
        p.len() == 0 || p.last() == '/',
        is_segment_name(name),
    ensures
        path_segments(p + name) == path_segments(p).push(name),
    decreases name.len(),
{
    let s = p + name;
    assert(s.drop_last() =~= p + name.drop_last());
    if name.len() == 1 {
        assert(p + name.drop_last() =~= p);
        assert(name =~= seq![name[0]]);
        if s.len() >= 2 {
            assert(s[s.len() - 2] == p.last());
        }
    } else {
        let n2 = name.drop_last();
        assert(is_segment_name(n2)) by {
            assert forall|i: int| 0 <= i < n2.len() implies n2[i] != '/' by {
                assert(n2[i] == name[i]);
            }
        }
        lemma_segments_append_name(p, n2);
        assert(s[s.len() - 2] == name[name.len() - 2]);
        assert(n2.push(s.last()) =~= name);
        assert(path_segments(p).push(n2).drop_last() =~= path_segments(p));
    }
}

/// A canonical path is empty or ends inside a segment.
proof fn lemma_canonical_tail(p: Seq<char>, os: OperatingSystem)
    requires
        is_canonical_path(p, os),
    ensures
        p.len() == 0 || p.last() != '/',
{
    let segs = path_segments(p);
    lemma_segments_are_names(p);
    if segs.len() > 0 {
        let piece = segment_piece(segs.last(), segs.len() == 1, os);
        assert(is_segment_name(segs[segs.len() - 1]));
        assert(p.last() == piece.last());
    }
}

/// Trimming the segment that was just appended gives back the canonical path.
pub proof fn lemma_strip_after_append(p: Seq<char>, name: Seq<char>, os: OperatingSystem)
    requires
        is_canonical_path(p, os),
        is_segment_name(name),
    ensures
        strip_last_segment(append_segment_spec(p, name), os) == p,
{
    lemma_canonical_tail(p, os);
    let ps = p.push('/');
    assert(p + seq!['/'] =~= ps);
    assert(ps.drop_last() =~= p);
    assert(path_segments(ps) == path_segments(p));
    lemma_segments_append_name(ps, name);
    assert(path_segments(p).push(name).drop_last() =~= path_segments(p));
}

} // verus!
