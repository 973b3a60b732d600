//! Entry-type filtering for directory walks: which kinds of entries a
//! search shows.

use vstd::prelude::*;

verus! {

/// The kind of a directory entry.
#[derive(Debug, Clone, PartialEq, Eq, Structural)]
pub enum EntryType {
    Dir,
    File,
    Link,
}

/// Whether an entry's type passes the filter: an empty filter passes
/// everything, a non-empty one exactly its members.
pub fn check_type(file_types: &Vec<EntryType>, entry_type: &EntryType) -> (r: bool)
    ensures
        r == (file_types@.len() == 0 || exists|i: int|
            0 <= i < file_types@.len() && #[trigger] file_types@[i] == *entry_type),
{
    let n = file_types.len();
    if n == 0 {
        return true;
    }
    let mut i: usize = 0;
    while i < n
        invariant
            i <= n,
            n == file_types@.len(),
            forall|k: int| 0 <= k < i ==> #[trigger] file_types@[k] != *entry_type,
        decreases n - i,
    {
        if file_types[i] == *entry_type {
            return true;
        }
        i += 1;
    }
    false
}

} // verus!
