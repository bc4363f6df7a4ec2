use keyhist::keymap::{parse_keymap, KeymapTable};

#[test]
fn parse_typical_output() {
    let output = "keycode  10 = 1 exclam onesuperior exclamdown\n\
                  keycode  38 = a A a A\n\
                  keycode  50 = Shift_L NoSymbol Shift_L\n";
    let km = parse_keymap(output);
    assert_eq!(km.lookup("10"), Some(&"1".to_string()));
    assert_eq!(km.lookup("38"), Some(&"a".to_string()));
    assert_eq!(km.lookup("50"), Some(&"Shift_L".to_string()));
    assert_eq!(km.lookup("99"), None);
}

#[test]
fn lines_without_separator_are_ignored() {
    let output = "xmodmap output\nkeycode  10 = 1\nnot a mapping\n";
    let km = parse_keymap(output);
    assert_eq!(km.lookup("10"), Some(&"1".to_string()));
    assert_eq!(km.entries.len(), 1);
}

#[test]
fn lines_with_two_separators_are_ignored() {
    let output = "keycode  10 = 1 = extra\nkeycode  11 = 2\n";
    let km = parse_keymap(output);
    assert_eq!(km.lookup("10"), None);
    assert_eq!(km.lookup("11"), Some(&"2".to_string()));
}

#[test]
fn line_without_second_left_token_is_ignored() {
    let output = "lone = symbol\n";
    let km = parse_keymap(output);
    assert_eq!(km.entries.len(), 0);
}

#[test]
fn line_with_empty_right_part_is_ignored() {
    let output = "keycode  10 = \nkeycode  11 = 2\n";
    let km = parse_keymap(output);
    assert_eq!(km.lookup("10"), None);
    assert_eq!(km.lookup("11"), Some(&"2".to_string()));
}

#[test]
fn later_line_overrides_earlier() {
    let output = "keycode  10 = 1\nkeycode  10 = exclam\n";
    let km = parse_keymap(output);
    assert_eq!(km.lookup("10"), Some(&"exclam".to_string()));
}

#[test]
fn insert_overrides_earlier_binding() {
    let mut km = KeymapTable::new();
    km.insert("10".to_string(), "1".to_string());
    km.insert("10".to_string(), "2".to_string());
    assert_eq!(km.lookup("10"), Some(&"2".to_string()));
}

#[test]
fn empty_output_gives_empty_table() {
    let km = parse_keymap("");
    assert_eq!(km.lookup("10"), None);
    assert_eq!(km.entries.len(), 0);
}
