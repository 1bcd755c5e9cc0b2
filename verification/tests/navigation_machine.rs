use dirbrowse::entry::{Entry, EntryKind};
use dirbrowse::navigation::NavigationState;

fn child(parent: &[&str], name: &str, kind: EntryKind) -> Entry {
    let components: Vec<String> = parent.iter().map(|c| c.to_string()).collect();
    Entry::new(components, name.to_string(), kind)
}

fn components(parts: &[&str]) -> Vec<String> {
    parts.iter().map(|c| c.to_string()).collect()
}

fn home_listing() -> Vec<Entry> {
    vec![
        child(&["home"], "zettel.txt", EntryKind::File),
        child(&["home"], "Docs", EntryKind::Directory),
        child(&["home"], "a.txt", EntryKind::File),
    ]
}

#[test]
fn new_state_sorts_and_selects_top() {
    let s = NavigationState::new(components(&["home"]), home_listing());
    assert_eq!(s.current_directory, vec!["home"]);
    let names: Vec<&str> = s.entries.iter().map(|e| e.name.as_str()).collect();
    assert_eq!(names, vec!["a.txt", "Docs", "zettel.txt"]);
    assert_eq!(s.selection, 0);
}

#[test]
fn selection_clamps_at_top() {
    let mut s = NavigationState::new(components(&["home"]), home_listing());
    assert_eq!(s.selection, 0);
    s.move_selection_up();
    assert_eq!(s.selection, 0);
    s.move_selection_down();
    assert_eq!(s.selection, 1);
    s.move_selection_up();
    assert_eq!(s.selection, 0);
}

#[test]
fn selection_clamps_at_bottom() {
    let mut s = NavigationState::new(components(&["home"]), home_listing());
    s.move_selection_down();
    s.move_selection_down();
    assert_eq!(s.selection, 2);
    s.move_selection_down();
    assert_eq!(s.selection, 2);
}

#[test]
fn selection_moves_are_noops_on_empty_listing() {
    let mut s = NavigationState::new(components(&["home"]), Vec::new());
    assert_eq!(s.selection, 0);
    s.move_selection_up();
    assert_eq!(s.selection, 0);
    s.move_selection_down();
    assert_eq!(s.selection, 0);
    assert!(s.entries.is_empty());
}

#[test]
fn descend_enters_selected_directory() {
    let mut s = NavigationState::new(components(&["home"]), home_listing());
    s.move_selection_down(); // "Docs"
    let target = s.descend_target();
    assert_eq!(target, Some(components(&["home", "Docs"])));
    let docs_listing = vec![child(&["home", "Docs"], "report.md", EntryKind::File)];
    s.descend(docs_listing);
    assert_eq!(s.current_directory, vec!["home", "Docs"]);
    assert_eq!(s.selection, 0);
    assert_eq!(s.entries.len(), 1);
    assert_eq!(s.entries[0].name, "report.md");
}

#[test]
fn descend_on_file_is_noop() {
    let mut s = NavigationState::new(components(&["home"]), home_listing());
    // "a.txt" is selected
    assert_eq!(s.descend_target(), None);
    s.descend(Vec::new());
    assert_eq!(s.current_directory, vec!["home"]);
    assert_eq!(s.selection, 0);
    let names: Vec<&str> = s.entries.iter().map(|e| e.name.as_str()).collect();
    assert_eq!(names, vec!["a.txt", "Docs", "zettel.txt"]);
}

#[test]
fn descend_on_empty_listing_is_noop() {
    let mut s = NavigationState::new(components(&["home"]), Vec::new());
    assert_eq!(s.descend_target(), None);
    s.descend(Vec::new());
    assert_eq!(s.current_directory, vec!["home"]);
    assert!(s.entries.is_empty());
    assert_eq!(s.selection, 0);
}

#[test]
fn ascend_reselects_the_directory_left() {
    let mut s = NavigationState::new(components(&["home"]), home_listing());
    s.move_selection_down(); // "Docs"
    s.descend(vec![child(&["home", "Docs"], "report.md", EntryKind::File)]);
    assert_eq!(s.ascend_target(), Some(components(&["home"])));
    s.ascend(home_listing());
    assert_eq!(s.current_directory, vec!["home"]);
    let names: Vec<&str> = s.entries.iter().map(|e| e.name.as_str()).collect();
    assert_eq!(names, vec!["a.txt", "Docs", "zettel.txt"]);
    assert_eq!(s.selection, 1);
    assert_eq!(s.entries[s.selection].name, "Docs");
}

#[test]
fn ascend_at_root_is_noop() {
    let mut s = NavigationState::new(
        Vec::new(),
        vec![child(&[], "home", EntryKind::Directory)],
    );
    assert_eq!(s.ascend_target(), None);
    s.ascend(Vec::new());
    assert!(s.current_directory.is_empty());
    assert_eq!(s.entries.len(), 1);
    assert_eq!(s.entries[0].name, "home");
    assert_eq!(s.selection, 0);
}

#[test]
fn ascend_falls_back_to_top_when_child_is_gone() {
    let mut s = NavigationState::new(components(&["home"]), home_listing());
    s.move_selection_down(); // "Docs"
    s.descend(Vec::new());
    assert_eq!(s.current_directory, vec!["home", "Docs"]);
    // while we were inside, "Docs" vanished from the parent
    let changed_parent = vec![
        child(&["home"], "zettel.txt", EntryKind::File),
        child(&["home"], "a.txt", EntryKind::File),
    ];
    s.ascend(changed_parent);
    assert_eq!(s.current_directory, vec!["home"]);
    assert_eq!(s.selection, 0);
    let names: Vec<&str> = s.entries.iter().map(|e| e.name.as_str()).collect();
    assert_eq!(names, vec!["a.txt", "zettel.txt"]);
}

#[test]
fn symlink_to_non_directory_is_not_descended() {
    let mut s = NavigationState::new(
        components(&["home"]),
        vec![child(&["home"], "link", EntryKind::Symlink)],
    );
    assert_eq!(s.descend_target(), None);
    s.descend(Vec::new());
    assert_eq!(s.current_directory, vec!["home"]);
    assert_eq!(s.entries.len(), 1);
}

#[test]
fn selected_entry_follows_selection() {
    let mut s = NavigationState::new(components(&["home"]), home_listing());
    assert_eq!(s.selected_entry().map(|e| e.name.as_str()), Some("a.txt"));
    s.move_selection_down();
    assert_eq!(s.selected_entry().map(|e| e.name.as_str()), Some("Docs"));
    let empty = NavigationState::new(components(&["home"]), Vec::new());
    assert!(empty.selected_entry().is_none());
}
