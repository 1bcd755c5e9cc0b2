//! The navigation state machine.
//!
//! A [`NavigationState`] owns the current directory, its sorted listing and
//! the selection index. The four operations move the selection (clamping at
//! both ends, never wrapping), descend into a selected directory, and ascend
//! to the parent while re-selecting the directory that was just left. The
//! directory loader is an outside collaborator: `descend` and `ascend` take
//! the freshly read raw listing as an argument, and the matching `*_target`
//! functions say which directory has to be read.

use vstd::prelude::*;

use crate::entry::{children_of, Entry, EntryKind, EntryModel};
use crate::file_system::{
    get_entries, lemma_sort_spec_children_of, lemma_sort_spec_ensures, sort_spec, sorted_by_name,
};

verus! {

/// The mutable state of the browser: the current directory (as components
/// under the root), its listing in display order, and the selection index.
/// On an empty listing the selection rests at zero and selects nothing.
pub struct NavigationState {
    pub current_directory: Vec<String>,
    pub entries: Vec<Entry>,
    pub selection: usize,
}

/// The mathematical value of a [`NavigationState`].
pub ghost struct NavModel {
    pub dir: Seq<Seq<char>>,
    pub entries: Seq<EntryModel>,
    pub selection: int,
}

impl View for NavigationState {
    type V = NavModel;

    open spec fn view(&self) -> NavModel {
        NavModel {
            dir: self.current_directory.deep_view(),
            entries: self.entries.deep_view(),
            selection: self.selection as int,
        }
    }
}

impl NavModel {
    /// The state invariant: the selection is in bounds whenever the listing
    /// is non-empty (and rests at zero when it is empty), the listing is in
    /// display order, and every listed entry lies directly under the
    /// current directory.
    pub open spec fn wf(self) -> bool {
        &&& self.entries.len() == 0 ==> self.selection == 0
        &&& self.entries.len() > 0 ==> 0 <= self.selection < self.entries.len()
        &&& sorted_by_name(self.entries)
        &&& children_of(self.entries, self.dir)
    }
}

/// Moving the selection up: one step toward the top, clamped at zero.
pub open spec fn move_up_model(s: NavModel) -> NavModel {
    if s.selection > 0 {
        NavModel { selection: s.selection - 1, ..s }
    } else {
        s
    }
}

/// Moving the selection down: one step toward the bottom, clamped at the
/// last entry; a no-op on an empty listing.
pub open spec fn move_down_model(s: NavModel) -> NavModel {
    if s.entries.len() > 0 && s.selection < s.entries.len() - 1 {
        NavModel { selection: s.selection + 1, ..s }
    } else {
        s
    }
}

/// The directory that `descend` would enter: the selected entry's path when
/// the selection is in bounds and names a directory, and nothing otherwise.
pub open spec fn descend_target_model(s: NavModel) -> Option<Seq<Seq<char>>> {
    if 0 <= s.selection < s.entries.len() && s.entries[s.selection].kind is Directory {
        Some(s.entries[s.selection].path)
    } else {
        None
    }
}

/// Descending with the freshly read raw listing of the target directory:
/// the target becomes current, its listing is sorted in, and the selection
/// resets to the top. Without a directory target this is a no-op.
pub open spec fn descend_model(s: NavModel, raw: Seq<EntryModel>) -> NavModel {
    match descend_target_model(s) {
        Some(d) => NavModel { dir: d, entries: sort_spec(raw), selection: 0 },
        None => s,
    }
}

/// The directory that `ascend` would enter: the parent of the current
/// directory, and nothing at the filesystem root.
pub open spec fn ascend_target_model(s: NavModel) -> Option<Seq<Seq<char>>> {
    if s.dir.len() == 0 {
        None
    } else {
        Some(s.dir.drop_last())
    }
}

/// The index of the first entry named `name`, or the length of the listing
/// when no entry has that name.
pub open spec fn index_of_name(entries: Seq<EntryModel>, name: Seq<char>) -> int
    decreases entries.len(),
{
    if entries.len() == 0 {
        0
    } else if entries[0].name == name {
        0
    } else {
        1 + index_of_name(entries.drop_first(), name)
    }
}

/// The selection after ascending: the first entry named after the directory
/// that was left, or the top when that name is gone.
pub open spec fn reconciled_selection(entries: Seq<EntryModel>, name: Seq<char>) -> int {
    if index_of_name(entries, name) < entries.len() {
        index_of_name(entries, name)
    } else {
        0
    }
}

/// Ascending with the freshly read raw listing of the parent: the parent
/// becomes current, its listing is sorted in, and the selection lands on
/// the entry named after the directory that was left, when it still
/// exists. At the filesystem root this is a no-op.
pub open spec fn ascend_model(s: NavModel, raw: Seq<EntryModel>) -> NavModel {
    if s.dir.len() == 0 {
        s
    } else {
        let es = sort_spec(raw);
        NavModel {
            dir: s.dir.drop_last(),
            entries: es,
            selection: reconciled_selection(es, s.dir.last()),
        }
    }
}

proof fn lemma_index_of_name_at(entries: Seq<EntryModel>, name: Seq<char>, i: int)
    requires
        0 <= i <= entries.len(),
        forall|t: int| 0 <= t < i ==> (#[trigger] entries[t]).name != name,
        i < entries.len() ==> entries[i].name == name,
    ensures
        index_of_name(entries, name) == i,
    decreases entries.len(),
{
    if i == 0 {
    } else {
        assert(entries[0].name != name);
        let rest = entries.drop_first();
        assert forall|t: int| 0 <= t < i - 1 implies (#[trigger] rest[t]).name != name by {
            assert(rest[t] == entries[t + 1]);
        }
        assert(i - 1 < rest.len() ==> rest[i - 1].name == name);
        lemma_index_of_name_at(rest, name, i - 1);
    }
}

fn clone_components(p: &Vec<String>) -> (r: Vec<String>)
    ensures
        r.deep_view() == p.deep_view(),
{
    let mut r: Vec<String> = Vec::new();
    let mut i: usize = 0;
    proof {
        assert(r.deep_view() =~= p.deep_view().take(0));
    }
    while i < p.len()
        invariant
            i <= p.len(),
            r.deep_view() == p.deep_view().take(i as int),
        decreases p.len() - i,
    {
        let ghost before = r.deep_view();
        r.push(p[i].clone());
        proof {
            assert(r.deep_view() =~= before.push(p.deep_view()[i as int]));
            assert(before.push(p.deep_view()[i as int]) =~= p.deep_view().take(i + 1));
        }
        i = i + 1;
    }
    proof {
        assert(p.deep_view().take(p.len() as int) =~= p.deep_view());
    }
    r
}

fn find_name(entries: &Vec<Entry>, name: &String) -> (r: usize)
    ensures
        r as int == index_of_name(entries.deep_view(), name@),
{
    let mut i: usize = 0;
    loop
        invariant
            i <= entries.len(),
            forall|t: int| 0 <= t < i ==> (#[trigger] entries.deep_view()[t]).name != name@,
        ensures
            i <= entries.len(),
            forall|t: int| 0 <= t < i ==> (#[trigger] entries.deep_view()[t]).name != name@,
            i < entries.len() ==> entries.deep_view()[i as int].name == name@,
        decreases entries.len() - i,
    {
        if i == entries.len() {
            break ;
        }
        let found = entries[i].name == *name;
        proof {
            assert(entries.deep_view()[i as int].name == entries@[i as int].name@);
        }
        if found {
            break ;
        }
        i = i + 1;
    }
    proof {
        lemma_index_of_name_at(entries.deep_view(), name@, i as int);
    }
    i
}

impl NavigationState {
    /// Builds the state the browser starts in: the given directory with its
    /// freshly read raw listing sorted in and the selection at the top.
    pub fn new(current_directory: Vec<String>, raw_entries: Vec<Entry>) -> (s: NavigationState)
        requires
            children_of(raw_entries.deep_view(), current_directory.deep_view()),
        ensures
            s@.dir == current_directory.deep_view(),
            s@.entries == sort_spec(raw_entries.deep_view()),
            s@.selection == 0,
            s@.wf(),
    {
        let ghost dirv = current_directory.deep_view();
        let ghost rawv = raw_entries.deep_view();
        let entries = get_entries(raw_entries);
        proof {
            lemma_sort_spec_ensures(rawv);
            lemma_sort_spec_children_of(rawv, dirv);
        }
        NavigationState { current_directory, entries, selection: 0 }
    }

    /// Moves the selection one entry up, clamping at the top.
    pub fn move_selection_up(&mut self)
        ensures
            final(self)@ == move_up_model(old(self)@),
            old(self)@.wf() ==> final(self)@.wf(),
    {
        if self.selection > 0 {
            self.selection = self.selection - 1;
        }
    }

    /// Moves the selection one entry down, clamping at the bottom; a no-op
    /// on an empty listing.
    pub fn move_selection_down(&mut self)
        ensures
            final(self)@ == move_down_model(old(self)@),
            old(self)@.wf() ==> final(self)@.wf(),
    {
        if self.entries.len() > 0 && self.selection < self.entries.len() - 1 {
            self.selection = self.selection + 1;
        }
    }

    /// The directory `descend` would enter, so that the caller can read its
    /// listing: the selected entry's path when it is a directory.
    pub fn descend_target(&self) -> (r: Option<Vec<String>>)
        ensures
            r.deep_view() == descend_target_model(self@),
    {
        if self.selection < self.entries.len() {
            proof {
                assert(self@.entries[self.selection as int]
                    == self.entries@[self.selection as int].deep_view());
            }
            match self.entries[self.selection].kind {
                EntryKind::Directory => Some(clone_components(&self.entries[self.selection].path)),
                EntryKind::File => None,
                EntryKind::Symlink => None,
            }
        } else {
            None
        }
    }

    /// Descends into the selected directory, its freshly read raw listing
    /// in hand: it becomes the current directory, sorted, with the
    /// selection at the top. When the selection is not a directory (or the
    /// listing is empty), the state is left exactly as it was.
    pub fn descend(&mut self, loaded: Vec<Entry>)
        requires
            old(self)@.wf(),
            descend_target_model(old(self)@) matches Some(d) ==> children_of(
                loaded.deep_view(),
                d,
            ),
        ensures
            final(self)@ == descend_model(old(self)@, loaded.deep_view()),
            final(self)@.wf(),
    {
        let ghost rawv = loaded.deep_view();
        if self.selection < self.entries.len() {
            proof {
                assert(self@.entries[self.selection as int]
                    == self.entries@[self.selection as int].deep_view());
            }
            let is_dir = match self.entries[self.selection].kind {
                EntryKind::Directory => true,
                EntryKind::File => false,
                EntryKind::Symlink => false,
            };
            if is_dir {
                let new_dir = clone_components(&self.entries[self.selection].path);
                let sorted = get_entries(loaded);
                proof {
                    lemma_sort_spec_ensures(rawv);
                    lemma_sort_spec_children_of(rawv, new_dir.deep_view());
                }
                self.current_directory = new_dir;
                self.entries = sorted;
                self.selection = 0;
            }
        }
    }

    /// The parent directory `ascend` would enter, so that the caller can
    /// read its listing; nothing at the filesystem root.
    pub fn ascend_target(&self) -> (r: Option<Vec<String>>)
        ensures
            r.deep_view() == ascend_target_model(self@),
    {
        if self.current_directory.len() == 0 {
            None
        } else {
            let mut p = clone_components(&self.current_directory);
            let _ = p.pop();
            Some(p)
        }
    }

    /// Ascends to the parent directory, its freshly read raw listing in
    /// hand: the parent becomes current, sorted, and the selection lands on
    /// the entry named after the directory that was just left, or at the
    /// top when that name is gone. At the filesystem root the state is left
    /// exactly as it was.
    pub fn ascend(&mut self, loaded: Vec<Entry>)
        requires
            old(self)@.wf(),
            old(self)@.dir.len() > 0 ==> children_of(
                loaded.deep_view(),
                old(self)@.dir.drop_last(),
            ),
        ensures
            final(self)@ == ascend_model(old(self)@, loaded.deep_view()),
            final(self)@.wf(),
    {
        let ghost rawv = loaded.deep_view();
        if self.current_directory.len() == 0 {
            return ;
        }
        let child = self.current_directory.pop().unwrap();
        proof {
            assert(self.current_directory.deep_view() =~= old(self)@.dir.drop_last());
            assert(child@ == old(self)@.dir.last());
        }
        let sorted = get_entries(loaded);
        proof {
            lemma_sort_spec_ensures(rawv);
            lemma_sort_spec_children_of(rawv, old(self)@.dir.drop_last());
        }
        let idx = find_name(&sorted, &child);
        let sel = if idx < sorted.len() {
            idx
        } else {
            0
        };
        proof {
            assert(sorted.deep_view().len() == sorted@.len());
            assert(sel as int == reconciled_selection(sort_spec(rawv), old(self)@.dir.last()));
        }
        self.entries = sorted;
        self.selection = sel;
    }

    /// The selected entry, for the renderer's status line; nothing on an
    /// empty listing.
    pub fn selected_entry(&self) -> (r: Option<&Entry>)
        requires
            self@.wf(),
        ensures
            match r {
                Some(e) => self@.entries.len() > 0 && e.deep_view()
                    == self@.entries[self@.selection],
                None => self@.entries.len() == 0,
            },
    {
        if self.entries.len() > 0 {
            proof {
                assert(self@.entries[self.selection as int]
                    == self.entries@[self.selection as int].deep_view());
            }
            Some(&self.entries[self.selection])
        } else {
            None
        }
    }
}

/// The round trip of the state machine: descending into the selected child
/// directory and immediately ascending again restores the directory, the
/// listing and the selection — provided the parent's contents are unchanged
/// when re-read (so the child still exists). Distinct names are assumed, as
/// in any directory listing.
pub proof fn lemma_descend_ascend_round_trip(
    s: NavModel,
    child_listing: Seq<EntryModel>,
    parent_listing: Seq<EntryModel>,
)
    requires
        s.wf(),
        s.entries.len() > 0,
        s.entries[s.selection].kind is Directory,
        sort_spec(parent_listing) == s.entries,
        forall|i: int, j: int|
            0 <= i < j < s.entries.len() ==> (#[trigger] s.entries[i]).name != (
            #[trigger] s.entries[j]).name,
    ensures
        ascend_model(descend_model(s, child_listing), parent_listing) == s,
{
    let name = s.entries[s.selection].name;
    assert(s.entries[s.selection].path == s.dir.push(name));
    let d = descend_model(s, child_listing);
    assert(d.dir == s.dir.push(name));
    assert(d.dir.drop_last() =~= s.dir);
    assert(d.dir.last() == name);
    assert forall|t: int| 0 <= t < s.selection implies (#[trigger] s.entries[t]).name != name by {
        assert(s.entries[t].name != s.entries[s.selection].name);
    }
    lemma_index_of_name_at(s.entries, name, s.selection);
    assert(reconciled_selection(s.entries, name) == s.selection);
    assert(ascend_model(d, parent_listing) == s);
}

} // verus!
