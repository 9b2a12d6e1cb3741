use xbind::keymap::{keycodes_from_keymap_text, CodeMap, KeymapError};

#[test]
fn every_name_maps_to_its_line_code() {
    let text = "keycode  44 = j J semicolon\nkeycode  36 = Return\n";
    let t = keycodes_from_keymap_text(text).unwrap();
    assert_eq!(t.get("j"), Some(44));
    assert_eq!(t.get("J"), Some(44));
    assert_eq!(t.get("semicolon"), Some(44));
    assert_eq!(t.get("Return"), Some(36));
    assert_eq!(t.get("q"), None);
}

#[test]
fn later_line_wins_for_duplicate_names() {
    let text = "keycode 10 = a\nkeycode 20 = a b\n";
    let t = keycodes_from_keymap_text(text).unwrap();
    assert_eq!(t.get("a"), Some(20));
    assert_eq!(t.get("b"), Some(20));
}

#[test]
fn later_insert_wins() {
    let mut t = CodeMap::new();
    t.insert("a".to_string(), 1);
    t.insert("a".to_string(), 2);
    assert_eq!(t.get("a"), Some(2));
    assert_eq!(t.len(), 2);
}

#[test]
fn empty_text_gives_empty_table() {
    let t = keycodes_from_keymap_text("").unwrap();
    assert_eq!(t.len(), 0);
}

#[test]
fn line_without_names_contributes_nothing() {
    let t = keycodes_from_keymap_text("keycode 8 =\n").unwrap();
    assert_eq!(t.len(), 0);
}

#[test]
fn tabs_separate_tokens_too() {
    let t = keycodes_from_keymap_text("keycode\t44 =\tj\n").unwrap();
    assert_eq!(t.get("j"), Some(44));
}

#[test]
fn non_numeric_code_is_fatal() {
    let e = keycodes_from_keymap_text("keycode = a\n").unwrap_err();
    assert_eq!(e.line_index, 0);
    assert_eq!(e.line, "keycode = a");
}

#[test]
fn short_line_is_fatal() {
    let e = keycodes_from_keymap_text("keycode 10 = a\ngarbage\n").unwrap_err();
    assert_eq!(e.line_index, 1);
    assert_eq!(e.line, "garbage");
    assert_eq!(e.message(), "malformed keymap line 1: garbage");
}

#[test]
fn error_message_renders_multi_digit_line_numbers() {
    let e = KeymapError { line_index: 1234, line: "oops".to_string() };
    assert_eq!(e.message(), "malformed keymap line 1234: oops");
}

#[test]
fn blank_line_is_fatal() {
    let e = keycodes_from_keymap_text("keycode 10 = a\n\nkeycode 20 = b\n").unwrap_err();
    assert_eq!(e.line_index, 1);
}

#[test]
fn code_out_of_u8_range_is_fatal() {
    let e = keycodes_from_keymap_text("keycode 256 = a\n").unwrap_err();
    assert_eq!(e.line_index, 0);
}

#[test]
fn code_255_is_accepted() {
    let t = keycodes_from_keymap_text("keycode 255 = a\n").unwrap();
    assert_eq!(t.get("a"), Some(255));
}

#[test]
fn text_without_final_newline_parses() {
    let t = keycodes_from_keymap_text("keycode 9 = Escape").unwrap();
    assert_eq!(t.get("Escape"), Some(9));
}
