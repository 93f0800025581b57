//! A lazily materialized directory tree for browsing a file system one level
//! at a time.
//!
//! A directory's children are read only when it is entered and dropped again
//! when it is left. A stack of identifiers addresses the current directory,
//! and a path string follows it. Every operation takes the result of the
//! directory read it needs as an argument, so the whole library is plain
//! computation over values.
//!
//! - `path`: appending and trimming path segments, drive-letter roots.
//! - `file`, `directory`: the tree model, materialization from a listing,
//!   and the walks that resolve identifiers.
//! - `fileorder`: the navigation controller and its state transitions.
//! - `volumes`: storage roots offered as alternate entry points.
//! - `layouts`: the screens and the text of the dates that are shown.
use vstd::prelude::*;

pub mod directory;
pub mod file;
pub mod fileorder;
pub mod layouts;
pub mod path;
pub mod volumes;

verus! {

} // verus!
