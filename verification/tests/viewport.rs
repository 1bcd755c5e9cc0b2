use dirbrowse::display::Display;
use dirbrowse::entry::{Entry, EntryKind};

fn file_entries(n: usize) -> Vec<Entry> {
    let mut v = Vec::new();
    for i in 0..n {
        v.push(Entry::new(
            vec![String::from("top")],
            format!("entry{:03}", i),
            EntryKind::File,
        ));
    }
    v
}

#[test]
fn usable_height_reserves_three_rows() {
    let d = Display::new(80, 23);
    assert_eq!(d.usable_height(), 20);
}

#[test]
fn viewport_no_scroll_when_list_fits() {
    let d = Display::new(80, 23);
    assert_eq!(d.calculate_display_start(3, 10), 0);
    let shown = d.get_displayed_entries(0, file_entries(10));
    assert_eq!(shown.len(), 10);
    assert_eq!(shown[0].name, "entry000");
    assert_eq!(shown[9].name, "entry009");
}

#[test]
fn viewport_top_case() {
    let d = Display::new(80, 23);
    assert_eq!(d.calculate_display_start(5, 100), 0);
}

#[test]
fn viewport_bottom_case() {
    let d = Display::new(80, 23);
    assert_eq!(d.calculate_display_start(95, 100), 80);
}

#[test]
fn viewport_centered_case() {
    let d = Display::new(80, 23);
    assert_eq!(d.calculate_display_start(50, 100), 40);
}

#[test]
fn viewport_boundaries() {
    let d = Display::new(80, 23);
    // just below and at half the height
    assert_eq!(d.calculate_display_start(9, 100), 0);
    assert_eq!(d.calculate_display_start(10, 100), 0);
    assert_eq!(d.calculate_display_start(11, 100), 1);
    // around the bottom pin
    assert_eq!(d.calculate_display_start(90, 100), 80);
    assert_eq!(d.calculate_display_start(91, 100), 80);
    // a list exactly as tall as the screen never scrolls
    assert_eq!(d.calculate_display_start(19, 20), 0);
    // odd usable height: floor divisions on both sides
    let odd = Display::new(80, 24); // usable height 21
    assert_eq!(d.usable_height(), 20);
    assert_eq!(odd.usable_height(), 21);
    assert_eq!(odd.calculate_display_start(50, 100), 40);
    assert_eq!(odd.calculate_display_start(90, 100), 80);
}

#[test]
fn displayed_entries_slice_keeps_order() {
    let d = Display::new(80, 23);
    let shown = d.get_displayed_entries(80, file_entries(100));
    assert_eq!(shown.len(), 20);
    assert_eq!(shown[0].name, "entry080");
    assert_eq!(shown[19].name, "entry099");
}

#[test]
fn displayed_entries_shorter_tail() {
    let d = Display::new(80, 23);
    // a window starting late in the list yields fewer than `height` rows
    let shown = d.get_displayed_entries(90, file_entries(100));
    assert_eq!(shown.len(), 10);
    assert_eq!(shown[0].name, "entry090");
    assert_eq!(shown[9].name, "entry099");
}

#[test]
fn displayed_entries_empty_list() {
    let d = Display::new(80, 23);
    let shown = d.get_displayed_entries(0, Vec::new());
    assert_eq!(shown.len(), 0);
}
