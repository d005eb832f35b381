//! The entry-type filter of `find`.
use vstd::prelude::*;

verus! {

/// A kind of directory entry that can be asked for.
#[derive(Debug, Clone, Copy, PartialEq, Eq, Structural)]
pub enum EntryType {
    Dir,
    File,
    Link,
}

/// What an entry is.
#[derive(Debug, Clone, Copy, PartialEq, Eq, Structural)]
pub struct EntryKind {
    pub is_dir: bool,
    pub is_file: bool,
    pub is_symlink: bool,
}

pub open spec fn type_matches(t: EntryType, kind: EntryKind) -> bool {
    match t {
        EntryType::Dir => kind.is_dir,
        EntryType::File => kind.is_file,
        EntryType::Link => kind.is_symlink,
    }
}

/// Whether an entry passes the type filter: no types asked for, or one of
/// them fits the entry.
pub fn type_selected(entry_types: &Vec<EntryType>, kind: EntryKind) -> (r: bool)
    ensures
        r == (entry_types@.len() == 0 || exists|i: int| 0 <= i < entry_types@.len() && type_matches(#[trigger] entry_types@[i], kind)),
{
    if entry_types.len() == 0 {
        return true;
    }
    let mut i: usize = 0;
    while i < entry_types.len()
        invariant
            i <= entry_types@.len(),
            forall|j: int| 0 <= j < i ==> !type_matches(#[trigger] entry_types@[j], kind),
        decreases entry_types@.len() - i,
    {
        let hit = match entry_types[i] {
            EntryType::Dir => kind.is_dir,
            EntryType::File => kind.is_file,
            EntryType::Link => kind.is_symlink,
        };
        if hit {
            return true;
        }
        i = i + 1;
    }
    false
}

} // verus!
