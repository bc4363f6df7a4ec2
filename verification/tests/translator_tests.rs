use keyhist::histogram::calculate_histogram;
use keyhist::keymap::KeymapTable;
use keyhist::translator::{resolve_symbol, translate_content};

fn table(pairs: &[(&str, &str)]) -> KeymapTable {
    let mut km = KeymapTable::new();
    for (k, v) in pairs {
        km.insert(k.to_string(), v.to_string());
    }
    km
}

fn histogram_of(files: &[&str], km: &KeymapTable) -> keyhist::histogram::Histogram {
    let contents: Vec<String> = files.iter().map(|s| s.to_string()).collect();
    calculate_histogram(&contents, km).expect("run should succeed")
}

#[test]
fn plain_digit_press_counts_once() {
    let km = table(&[("10", "1")]);
    let h = histogram_of(&["10 (KeyPress)"], &km);
    assert_eq!(h.count("1"), 1);
    assert_eq!(h.entries.len(), 1);
}

#[test]
fn shift_turns_digit_into_symbol() {
    let km = table(&[("50", "Shift_L"), ("10", "1")]);
    let h = histogram_of(&["50 (KeyPress)\n10 (KeyPress)\n50 (KeyRelease)"], &km);
    assert_eq!(h.count("!"), 1);
    assert_eq!(h.count("1"), 0);
    assert_eq!(h.count("Shift_L"), 0);
    assert_eq!(h.entries.len(), 1);
}

#[test]
fn shift_right_also_applies() {
    let km = table(&[("62", "Shift_R"), ("11", "2")]);
    let h = histogram_of(&["62 (KeyPress)\n11 (KeyPress)"], &km);
    assert_eq!(h.count("@"), 1);
}

#[test]
fn release_after_shift_release_is_unshifted() {
    let km = table(&[("50", "Shift_L"), ("20", "minus")]);
    let h = histogram_of(&["50 (KeyPress)\n50 (KeyRelease)\n20 (KeyPress)"], &km);
    assert_eq!(h.count("-"), 1);
    assert_eq!(h.count("_"), 0);
}

#[test]
fn press_and_release_both_count() {
    let km = table(&[("38", "a")]);
    let h = histogram_of(&["38 (KeyPress)\n38 (KeyRelease)"], &km);
    assert_eq!(h.count("a"), 2);
}

#[test]
fn unknown_keycode_is_skipped() {
    let km = table(&[("10", "1")]);
    let h = histogram_of(&["99 (KeyPress)\n10 (KeyPress)"], &km);
    assert_eq!(h.count("1"), 1);
    assert_eq!(h.entries.len(), 1);
}

#[test]
fn blank_and_malformed_lines_give_empty_histogram() {
    let km = table(&[("10", "1")]);
    let h = histogram_of(&["\n\n10\nsingle\none two three\n  \n"], &km);
    assert_eq!(h.entries.len(), 0);
}

#[test]
fn unknown_action_on_modifier_aborts() {
    let km = table(&[("50", "Shift_L"), ("10", "1")]);
    let contents = vec!["10 (KeyPress)\n10 (KeyPress)\n50 (KeyFoo)".to_string()];
    let err = calculate_histogram(&contents, &km).err().expect("run should abort");
    assert_eq!(err.action, "(KeyFoo)");
    assert_eq!(err.message(), "Unknown action `(KeyFoo)`");
}

#[test]
fn unknown_action_aborts_across_files() {
    let km = table(&[("50", "Shift_L")]);
    let contents = vec!["".to_string(), "50 (Wat)".to_string()];
    let err = calculate_histogram(&contents, &km).err().expect("run should abort");
    assert_eq!(err.action, "(Wat)");
}

#[test]
fn unknown_action_on_non_modifier_is_counted_not_fatal() {
    let km = table(&[("10", "1")]);
    let h = histogram_of(&["10 (KeyFoo)"], &km);
    assert_eq!(h.count("1"), 1);
}

#[test]
fn two_files_aggregate() {
    let km = table(&[("38", "a")]);
    let h = histogram_of(&["38 (KeyPress)", "38 (KeyPress)"], &km);
    assert_eq!(h.count("a"), 2);
    assert_eq!(h.entries.len(), 1);
}

#[test]
fn modifier_state_does_not_persist_between_files() {
    let km = table(&[("50", "Shift_L"), ("10", "1")]);
    let h = histogram_of(&["50 (KeyPress)", "10 (KeyPress)"], &km);
    assert_eq!(h.count("1"), 1);
    assert_eq!(h.count("!"), 0);
}

#[test]
fn control_and_alt_are_tracked_but_inert() {
    let km = table(&[
        ("37", "Control_L"),
        ("105", "Control_R"),
        ("64", "Alt_L"),
        ("108", "Alt_R"),
        ("10", "1"),
    ]);
    let h = histogram_of(
        &["37 (KeyPress)\n105 (KeyPress)\n64 (KeyPress)\n108 (KeyPress)\n10 (KeyPress)"],
        &km,
    );
    assert_eq!(h.count("1"), 1);
    assert_eq!(h.count("!"), 0);
    assert_eq!(h.entries.len(), 1);
}

#[test]
fn running_twice_gives_identical_histogram() {
    let km = table(&[("50", "Shift_L"), ("10", "1"), ("38", "a")]);
    let contents =
        vec!["50 (KeyPress)\n10 (KeyPress)\n50 (KeyRelease)\n38 (KeyPress)".to_string()];
    let h1 = calculate_histogram(&contents, &km).expect("first run");
    let h2 = calculate_histogram(&contents, &km).expect("second run");
    assert_eq!(h1.entries, h2.entries);
}

#[test]
fn translate_content_emits_in_order() {
    let km = table(&[("38", "a"), ("39", "s")]);
    let out = translate_content("38 (KeyPress)\n39 (KeyPress)\n38 (KeyPress)", &km)
        .expect("translation should succeed");
    assert_eq!(out, vec!["a".to_string(), "s".to_string(), "a".to_string()]);
}

#[test]
fn shift_table_full() {
    let cases = [
        ("1", "!"),
        ("2", "@"),
        ("3", "#"),
        ("4", "$"),
        ("5", "%"),
        ("6", "^"),
        ("7", "&"),
        ("8", "*"),
        ("9", "("),
        ("0", ")"),
        ("minus", "_"),
        ("equal", "+"),
        ("bracketright", "{"),
        ("bracketleft", "}"),
        ("semicolon", ":"),
        ("apostrophe", "\""),
        ("backslash", "|"),
        ("comma", "<"),
        ("period", ">"),
        ("slash", "?"),
        ("grave", "~"),
    ];
    for (sym, expected) in cases {
        assert_eq!(resolve_symbol(sym, true), expected);
    }
}

#[test]
fn unshifted_table_full() {
    let cases = [
        ("minus", "-"),
        ("equal", "="),
        ("bracketright", "]"),
        ("bracketleft", "["),
        ("semicolon", ";"),
        ("apostrophe", "'"),
        ("backslash", "\\"),
        ("comma", ","),
        ("period", "."),
        ("slash", "/"),
        ("grave", "`"),
    ];
    for (sym, expected) in cases {
        assert_eq!(resolve_symbol(sym, false), expected);
    }
}

#[test]
fn symbols_absent_from_tables_pass_through() {
    assert_eq!(resolve_symbol("a", false), "a");
    assert_eq!(resolve_symbol("a", true), "a");
    assert_eq!(resolve_symbol("A", true), "A");
    assert_eq!(resolve_symbol("space", true), "space");
    assert_eq!(resolve_symbol("1", false), "1");
}
