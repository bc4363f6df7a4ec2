use keyhist::paths::{default_paths, input_order, partition_paths};
use keyhist::text::{split_eq_sep, split_lines, str_eq, tokenize};

#[test]
fn tokenize_two_tokens() {
    assert_eq!(tokenize("10 (KeyPress)"), vec!["10", "(KeyPress)"]);
}

#[test]
fn tokenize_handles_extra_whitespace() {
    assert_eq!(tokenize("  10 \t (KeyPress)  "), vec!["10", "(KeyPress)"]);
    assert_eq!(tokenize(""), Vec::<String>::new());
    assert_eq!(tokenize("   "), Vec::<String>::new());
    assert_eq!(tokenize("one two three"), vec!["one", "two", "three"]);
}

#[test]
fn split_lines_keeps_empty_segments() {
    assert_eq!(split_lines("a\nb"), vec!["a", "b"]);
    assert_eq!(split_lines("a\n"), vec!["a", ""]);
    assert_eq!(split_lines(""), vec![""]);
    assert_eq!(split_lines("\n\n"), vec!["", "", ""]);
}

#[test]
fn split_eq_sep_two_parts() {
    let r = split_eq_sep("keycode  10 = 1 exclam");
    assert_eq!(r, Some(("keycode  10".to_string(), "1 exclam".to_string())));
}

#[test]
fn split_eq_sep_rejects_other_shapes() {
    assert_eq!(split_eq_sep("no separator here"), None);
    assert_eq!(split_eq_sep("a = b = c"), None);
    assert_eq!(split_eq_sep(""), None);
}

#[test]
fn str_eq_compares_contents() {
    assert!(str_eq("abc", "abc"));
    assert!(!str_eq("abc", "abd"));
    assert!(!str_eq("abc", "ab"));
    assert!(str_eq("", ""));
}

#[test]
fn default_is_standard_input() {
    assert_eq!(default_paths(), vec!["/dev/stdin".to_string()]);
}

#[test]
fn partition_keeps_order() {
    let paths = vec![
        "a.log".to_string(),
        "logs".to_string(),
        "b.log".to_string(),
        "more".to_string(),
    ];
    let is_dir = vec![false, true, false, true];
    let (files, dirs) = partition_paths(&paths, &is_dir);
    assert_eq!(files, vec!["a.log".to_string(), "b.log".to_string()]);
    assert_eq!(dirs, vec!["logs".to_string(), "more".to_string()]);
}

#[test]
fn input_order_appends_expanded() {
    let files = vec!["a".to_string()];
    let expanded = vec!["d/x".to_string(), "d/y".to_string()];
    assert_eq!(
        input_order(files, expanded),
        vec!["a".to_string(), "d/x".to_string(), "d/y".to_string()]
    );
}
