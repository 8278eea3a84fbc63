//! The entry model: one immediate child of a listed directory.

use vstd::prelude::*;
use vstd::string::StrSliceExecFns;

verus! {

/// One immediate child of a listed directory, as a flat snapshot taken at
/// listing time: the bare name, the full path, whether it is a directory,
/// and its reported byte size.
#[derive(Debug, PartialEq, Eq)]
pub struct FileEntry {
    pub name: String,
    pub path: String,
    pub is_dir: bool,
    pub size: u64,
}

/// A name is visible when it is non-empty and does not begin with the
/// hidden-file marker, a leading `.`.
pub open spec fn visible_name(name: Seq<char>) -> bool {
    name.len() > 0 && name[0] != '.'
}

/// An entry is kept in a listing exactly when its name is visible.
pub open spec fn visible(e: FileEntry) -> bool {
    visible_name(e.name@)
}

/// Decides whether an entry survives the hidden-name filter.
pub fn is_visible(e: &FileEntry) -> (r: bool)
    ensures
        r == visible(*e),
{
    let n = e.name.as_str();
    if n.is_empty() {
        false
    } else {
        n.get_char(0) != '.'
    }
}

} // verus!
