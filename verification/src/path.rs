//! What the host has found out about a path before it hands it to the
//! engine.

use vstd::prelude::*;

verus! {

/// A path as the host submits it: the path itself, whether it denotes a
/// directory, and its last component if it has one.
#[derive(Debug, PartialEq, Eq)]
pub struct PluginPath {
    pub path: String,
    pub is_dir: bool,
    pub file_name: Option<String>,
}

/// A file name has an extension when it holds a dot that is not its first
/// character.
pub open spec fn has_extension(name: Seq<char>) -> bool {
    exists|i: int| 1 <= i < name.len() && #[trigger] name[i] == '.'
}

impl PluginPath {
    /// The description of a path.
    pub fn new(path: &str, is_dir: bool, file_name: Option<String>) -> (r: PluginPath)
        ensures
            r.path@ == path@,
            r.is_dir == is_dir,
            r.file_name == file_name,
    {
        PluginPath { path: path.to_owned(), is_dir, file_name }
    }
}

/// Whether a file name has an extension.
pub fn name_has_extension(name: &str) -> (r: bool)
    ensures
        r == has_extension(name@),
{
    let n = name.unicode_len();
    let mut i: usize = 1;
    while i < n
        invariant
            1 <= i,
            n == name@.len(),
            forall|j: int| 1 <= j < i && j < n ==> name@[j] != '.',
        decreases n - i,
    {
        if name.get_char(i) == '.' {
            return true;
        }
        i = i + 1;
    }
    false
}

} // verus!
