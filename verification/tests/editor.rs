use audio_server::editor::Selected;
use audio_server::editor::SoundscapeEditor;
use audio_server::editor::Stored;
use std::collections::HashMap;

fn editor() -> SoundscapeEditor {
    SoundscapeEditor::from_stored(Stored::default())
}

fn selected(id: u64, name: &str) -> Option<Selected> {
    Some(Selected { id, name: name.to_string() })
}

#[test]
fn nothing_is_stored_to_begin_with() {
    let stored = Stored::default();
    assert!(stored.groups.is_empty());
    assert_eq!(stored.next_group_id, 0);
}

#[test]
fn the_editor_starts_folded_from_what_was_stored() {
    let mut groups = HashMap::new();
    groups.insert(4, "birds".to_string());
    let editor = SoundscapeEditor::from_stored(Stored { groups: groups.clone(), next_group_id: 5 });
    assert!(!editor.is_open);
    assert_eq!(editor.groups, groups);
    assert_eq!(editor.next_group_id, 5);
    assert_eq!(editor.selected, None);
}

#[test]
fn a_new_group_is_unnamed_and_selected() {
    let mut editor = editor();
    editor.is_open = true;
    assert_eq!(editor.add_group(), 0);
    assert_eq!(editor.add_group(), 1);
    assert_eq!(editor.next_group_id, 2);
    assert_eq!(editor.groups.len(), 2);
    assert_eq!(editor.groups[&0], "<unnamed>");
    assert_eq!(editor.groups[&1], "<unnamed>");
    assert_eq!(editor.selected, selected(1, "<unnamed>"));
    assert!(editor.is_open);
}

#[test]
fn a_new_group_takes_the_last_id_but_one() {
    let mut editor = SoundscapeEditor::from_stored(Stored {
        groups: HashMap::new(),
        next_group_id: u64::MAX - 1,
    });
    assert_eq!(editor.add_group(), u64::MAX - 1);
    assert_eq!(editor.next_group_id, u64::MAX);
}

#[test]
fn selecting_a_group_puts_its_name_in_the_text_box() {
    let mut editor = editor();
    editor.add_group();
    editor.add_group();
    editor.edit_name("rain".to_string());
    editor.confirm_name();
    assert!(editor.select(0));
    assert_eq!(editor.selected, selected(0, "<unnamed>"));
    assert!(editor.select(1));
    assert_eq!(editor.selected, selected(1, "rain"));
    assert!(!editor.select(2));
    assert_eq!(editor.selected, selected(1, "rain"));
}

#[test]
fn a_name_is_only_given_when_it_is_confirmed() {
    let mut editor = editor();
    editor.add_group();
    assert!(editor.edit_name("r".to_string()));
    assert!(editor.edit_name("rain".to_string()));
    assert_eq!(editor.groups[&0], "<unnamed>");
    assert_eq!(editor.selected, selected(0, "rain"));
    assert!(editor.confirm_name());
    assert_eq!(editor.groups[&0], "rain");
    assert_eq!(editor.selected, selected(0, "rain"));
    assert_eq!(editor.groups.len(), 1);
}

#[test]
fn nothing_is_renamed_without_a_selection() {
    let mut editor = editor();
    assert!(!editor.edit_name("rain".to_string()));
    assert!(!editor.confirm_name());
    assert_eq!(editor.selected, None);
    assert!(editor.groups.is_empty());
    editor.add_group();
    editor.groups.remove(&0);
    assert!(!editor.confirm_name());
    assert!(editor.groups.is_empty());
}

#[test]
fn removing_the_selected_group_clears_the_selection() {
    let mut editor = editor();
    editor.add_group();
    editor.add_group();
    assert!(editor.remove_group(1));
    assert_eq!(editor.selected, None);
    assert_eq!(editor.groups.len(), 1);
    assert!(editor.groups.contains_key(&0));
    assert_eq!(editor.next_group_id, 2);
}

#[test]
fn removing_another_group_keeps_the_selection() {
    let mut editor = editor();
    editor.add_group();
    editor.add_group();
    assert!(editor.remove_group(0));
    assert_eq!(editor.selected, selected(1, "<unnamed>"));
    assert!(!editor.remove_group(0));
    assert!(!editor.remove_group(9));
    assert_eq!(editor.selected, selected(1, "<unnamed>"));
    assert_eq!(editor.groups.len(), 1);
}

fn rows(ids: &[u64]) -> Vec<(u64, String)> {
    ids.iter().map(|id| (*id, format!("group {}", id))).collect()
}

#[test]
fn the_selected_group_is_found_in_the_listing() {
    let mut editor = editor();
    assert_eq!(editor.selected_index(&rows(&[0, 1, 2])), None);
    editor.add_group();
    editor.add_group();
    editor.add_group();
    editor.select(1);
    assert_eq!(editor.selected_index(&rows(&[2, 0, 1])), Some(2));
    assert_eq!(editor.selected_index(&rows(&[1, 0, 1])), Some(0));
    assert_eq!(editor.selected_index(&rows(&[2, 0])), None);
    assert_eq!(editor.selected_index(&rows(&[])), None);
}

fn named(names: &[&str]) -> SoundscapeEditor {
    let mut editor = editor();
    for name in names {
        editor.add_group();
        editor.edit_name(name.to_string());
        editor.confirm_name();
    }
    editor
}

#[test]
fn groups_are_listed_by_name() {
    let editor = named(&["rain", "birds", "wind", "bells"]);
    let listing = editor.listing();
    assert_eq!(
        listing,
        vec![
            (3, "bells".to_string()),
            (1, "birds".to_string()),
            (0, "rain".to_string()),
            (2, "wind".to_string()),
        ]
    );
    assert_eq!(editor.selected_index(&listing), Some(0));
}

#[test]
fn names_are_ordered_byte_by_byte() {
    let editor = named(&["b", "ab", "", "a", "B", "abc", "\u{e9}t\u{e9}", "z"]);
    let names: Vec<String> = editor.listing().into_iter().map(|row| row.1).collect();
    assert_eq!(names, vec!["", "B", "a", "ab", "abc", "b", "z", "\u{e9}t\u{e9}"]);
    let mut sorted = names.clone();
    sorted.sort();
    assert_eq!(names, sorted);
}

#[test]
fn groups_of_one_name_are_all_listed() {
    let mut editor = named(&["rain", "rain"]);
    editor.add_group();
    let listing = editor.listing();
    assert_eq!(listing.len(), 3);
    assert_eq!(listing[0], (2, "<unnamed>".to_string()));
    assert_eq!(listing[1].1, "rain");
    assert_eq!(listing[2].1, "rain");
    let mut ids: Vec<u64> = listing.iter().map(|row| row.0).collect();
    ids.sort();
    assert_eq!(ids, vec![0, 1, 2]);
}

#[test]
fn no_groups_make_an_empty_listing() {
    assert!(editor().listing().is_empty());
}
