use syntaxis::editor_edits::{apply_editor_edits, utf16_to_char_index, EditorEdit};

fn edit(start: usize, end: usize, text: &str) -> EditorEdit {
    EditorEdit {
        start,
        end,
        text: text.into(),
    }
}

#[test]
fn bridge_edits_advance_the_cached_value_with_utf16_offsets() {
    let mut value = "a😀bc".to_owned();
    assert!(apply_editor_edits(
        &mut value,
        &vec![
            EditorEdit {
                start: 1,
                end: 3,
                text: "🙂".into(),
            },
            EditorEdit {
                start: 4,
                end: 5,
                text: "d".into(),
            },
        ],
    ));
    assert_eq!(value, "a🙂bd");
}

#[test]
fn utf16_offsets_map_to_character_boundaries() {
    let chars: Vec<char> = "a😀bc".chars().collect();
    assert_eq!(utf16_to_char_index(&chars, 0), Some(0));
    assert_eq!(utf16_to_char_index(&chars, 1), Some(1));
    assert_eq!(utf16_to_char_index(&chars, 2), None);
    assert_eq!(utf16_to_char_index(&chars, 3), Some(2));
    assert_eq!(utf16_to_char_index(&chars, 5), Some(4));
    assert_eq!(utf16_to_char_index(&chars, 6), None);
}

#[test]
fn edits_inside_a_surrogate_pair_are_refused_without_change() {
    let mut value = "a😀bc".to_owned();
    assert!(!apply_editor_edits(&mut value, &vec![edit(2, 3, "x")]));
    assert_eq!(value, "a😀bc");
}

#[test]
fn overlapping_or_backward_edits_are_refused() {
    let mut value = "hello".to_owned();
    assert!(!apply_editor_edits(&mut value, &vec![edit(0, 3, "a"), edit(2, 4, "b")]));
    assert!(!apply_editor_edits(&mut value, &vec![edit(3, 1, "a")]));
    assert!(!apply_editor_edits(&mut value, &vec![edit(0, 9, "a")]));
    assert_eq!(value, "hello");
}

#[test]
fn edits_apply_against_the_original_document_in_any_order() {
    let mut value = "hello world".to_owned();
    assert!(apply_editor_edits(
        &mut value,
        &vec![edit(0, 5, "goodbye"), edit(6, 11, "moon"), edit(5, 5, ",")]
    ));
    assert_eq!(value, "goodbye, moon");
    let mut empty = "abc".to_owned();
    assert!(apply_editor_edits(&mut empty, &Vec::new()));
    assert_eq!(empty, "abc");
}
