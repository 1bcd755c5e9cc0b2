use dirbrowse::entry::{Entry, EntryKind};
use dirbrowse::file_system::get_entries;
use dirbrowse::ordering::name_le_exec;

fn child(parent: &[&str], name: &str, kind: EntryKind) -> Entry {
    let components: Vec<String> = parent.iter().map(|c| c.to_string()).collect();
    Entry::new(components, name.to_string(), kind)
}

#[test]
fn comparator_is_case_insensitive() {
    assert!(name_le_exec("apple", "Banana"));
    assert!(name_le_exec("Banana", "Cherry"));
    assert!(!name_le_exec("Cherry", "apple"));
    assert!(name_le_exec("a", "A"));
    assert!(name_le_exec("A", "a"));
    assert!(name_le_exec("", "anything"));
    assert!(!name_le_exec("anything", ""));
    assert!(name_le_exec("abc", "abcd"));
}

#[test]
fn comparator_folds_unicode_case() {
    // "Ä" lowercases to "ä": equal either way around
    assert!(name_le_exec("Ä", "ä"));
    assert!(name_le_exec("ä", "Ä"));
    assert!(name_le_exec("STRASSE", "strasse"));
    // "É" (U+00C9) lowercases to "é" (U+00E9), which sorts after "z"
    assert!(name_le_exec("z", "É"));
    assert!(!name_le_exec("É", "z"));
}

#[test]
fn listing_sorts_case_insensitively() {
    let raw = vec![
        child(&["d"], "Banana", EntryKind::File),
        child(&["d"], "apple", EntryKind::File),
        child(&["d"], "Cherry", EntryKind::File),
    ];
    let sorted = get_entries(raw);
    let names: Vec<&str> = sorted.iter().map(|e| e.name.as_str()).collect();
    assert_eq!(names, vec!["apple", "Banana", "Cherry"]);
}

#[test]
fn sort_is_stable_on_equal_names() {
    let raw = vec![
        child(&["d"], "dup", EntryKind::File),
        child(&["d"], "beta", EntryKind::File),
        child(&["d"], "dup", EntryKind::Directory),
    ];
    let sorted = get_entries(raw);
    assert_eq!(sorted.len(), 3);
    assert_eq!(sorted[0].name, "beta");
    assert_eq!(sorted[1].name, "dup");
    assert_eq!(sorted[1].kind, EntryKind::File);
    assert_eq!(sorted[2].name, "dup");
    assert_eq!(sorted[2].kind, EntryKind::Directory);
}

#[test]
fn sort_keeps_case_folded_ties_in_enumeration_order() {
    let raw = vec![
        child(&["d"], "b", EntryKind::File),
        child(&["d"], "A", EntryKind::File),
        child(&["d"], "a", EntryKind::File),
    ];
    let sorted = get_entries(raw);
    let names: Vec<&str> = sorted.iter().map(|e| e.name.as_str()).collect();
    assert_eq!(names, vec!["A", "a", "b"]);
}

#[test]
fn sort_keeps_unicode_case_ties_in_enumeration_order() {
    // "äpfel" and "Äpfel" have equal lowercase forms: the raw order stays
    let raw = vec![
        child(&["d"], "äpfel", EntryKind::File),
        child(&["d"], "Äpfel", EntryKind::Directory),
        child(&["d"], "zebra", EntryKind::File),
    ];
    let sorted = get_entries(raw);
    let names: Vec<&str> = sorted.iter().map(|e| e.name.as_str()).collect();
    assert_eq!(names, vec!["zebra", "äpfel", "Äpfel"]);
}

#[test]
fn sort_of_empty_listing_is_empty() {
    let sorted = get_entries(Vec::new());
    assert!(sorted.is_empty());
}

#[test]
fn entry_new_extends_parent_path() {
    let e = child(&["home", "ada"], "notes", EntryKind::Directory);
    assert_eq!(e.name, "notes");
    assert_eq!(e.path, vec!["home", "ada", "notes"]);
    assert_eq!(e.kind, EntryKind::Directory);
}
