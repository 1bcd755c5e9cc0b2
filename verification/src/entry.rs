//! The entry model: one filesystem child, as the browser sees it.
//!
//! A path is modelled as its components under the filesystem root: the root
//! itself is the empty sequence, and `["home", "ada"]` stands for
//! `/home/ada`. An entry carries its display name, its full component path,
//! and its kind as classified at listing time (symlinks to directories are
//! classified as directories, so that they can be descended into).

use vstd::prelude::*;

verus! {

/// The kind of a filesystem child, resolved at listing time: a symlink whose
/// target is a directory is classified as `Directory`; `Symlink` is kept for
/// symlinks to non-directories.
#[derive(Clone, Copy, Debug, PartialEq, Eq, Structural)]
pub enum EntryKind {
    File,
    Directory,
    Symlink,
}

/// One child of a directory: its base name, its full path (as components
/// under the root), and its kind.
#[derive(Clone)]
pub struct Entry {
    pub name: String,
    pub path: Vec<String>,
    pub kind: EntryKind,
}

/// The mathematical value of an [`Entry`]: name and path components as
/// character sequences.
pub ghost struct EntryModel {
    pub name: Seq<char>,
    pub path: Seq<Seq<char>>,
    pub kind: EntryKind,
}

impl View for Entry {
    type V = EntryModel;

    open spec fn view(&self) -> EntryModel {
        EntryModel { name: self.name@, path: self.path.deep_view(), kind: self.kind }
    }
}

impl DeepView for Entry {
    type V = EntryModel;

    open spec fn deep_view(&self) -> EntryModel {
        self.view()
    }
}

impl Entry {
    /// Builds an entry as the directory loader does: the path of a child is
    /// its parent directory's path extended with the child's own name.
    pub fn new(parent: Vec<String>, name: String, kind: EntryKind) -> (e: Entry)
        ensures
            e@.name == name@,
            e@.path == parent.deep_view().push(name@),
            e@.kind == kind,
    {
        let mut path = parent;
        path.push(name.clone());
        let e = Entry { name, path, kind };
        proof {
            assert(e@.path =~= parent.deep_view().push(e@.name));
        }
        e
    }
}

/// Every entry of `listing` lies directly under the directory `dir`: its
/// path is `dir` extended with its own name. This is what the directory
/// loader guarantees of a listing of `dir`.
pub open spec fn children_of(listing: Seq<EntryModel>, dir: Seq<Seq<char>>) -> bool {
    forall|i: int|
        0 <= i < listing.len() ==> (#[trigger] listing[i]).path == dir.push(listing[i].name)
}

} // verus!
