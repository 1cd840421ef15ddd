//! Recognising a bare repository from the shape of a directory listing.

use vstd::prelude::*;

verus! {

/// What a directory entry is, as its metadata reports it.
#[derive(Clone, Copy, Debug, PartialEq, Eq, Structural)]
pub enum EntryKind {
    File,
    Dir,
    Other,
}

/// One entry of a directory listing: its file name and its kind.
#[derive(Clone, Debug)]
pub struct DirEntry {
    pub name: String,
    pub kind: EntryKind,
}

/// The listing holds an entry of the given name and kind.
pub open spec fn has_entry(entries: Seq<DirEntry>, name: Seq<char>, kind: EntryKind) -> bool {
    exists|i: int| 0 <= i < entries.len() && #[trigger] entries[i].name@ == name && entries[i].kind == kind
}

/// A directory looks like a bare repository when it holds a regular file `HEAD`,
/// a regular file `config`, a directory `objects` and a directory `refs`.
pub open spec fn bare_shape(entries: Seq<DirEntry>) -> bool {
    &&& has_entry(entries, "HEAD"@, EntryKind::File)
    &&& has_entry(entries, "config"@, EntryKind::File)
    &&& has_entry(entries, "objects"@, EntryKind::Dir)
    &&& has_entry(entries, "refs"@, EntryKind::Dir)
}

fn contains_entry(entries: &Vec<DirEntry>, name: &String, kind: EntryKind) -> (r: bool)
    ensures
        r == has_entry(entries@, name@, kind),
{
    let mut i: usize = 0;
    while i < entries.len()
        invariant
            0 <= i <= entries.len(),
            forall|j: int| 0 <= j < i ==> !(#[trigger] entries@[j].name@ == name@ && entries@[j].kind == kind),
        decreases entries.len() - i,
    {
        if entries[i].kind == kind && entries[i].name == *name {
            return true;
        }
        i = i + 1;
    }
    false
}

/// Decides from a directory's listing alone whether it looks like a bare
/// repository. The shape is no proof: the tool still has to confirm it.
pub fn looks_like_bare_repo(entries: &Vec<DirEntry>) -> (r: bool)
    ensures
        r == bare_shape(entries@),
{
    let head = "HEAD".to_owned();
    let config = "config".to_owned();
    let objects = "objects".to_owned();
    let refs = "refs".to_owned();
    proof {
        reveal_strlit("HEAD");
        reveal_strlit("config");
        reveal_strlit("objects");
        reveal_strlit("refs");
    }
    contains_entry(entries, &head, EntryKind::File) && contains_entry(entries, &config, EntryKind::File)
        && contains_entry(entries, &objects, EntryKind::Dir) && contains_entry(entries, &refs, EntryKind::Dir)
}

} // verus!
