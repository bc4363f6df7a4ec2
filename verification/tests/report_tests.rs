use keyhist::histogram::Histogram;
use keyhist::report::{render_line, report_lines, sorted_counts, u64_to_string};

fn hist_of(chars: &[&str]) -> Histogram {
    let mut h = Histogram::new();
    for c in chars {
        h.record(c.to_string());
    }
    h
}

#[test]
fn record_and_count() {
    let h = hist_of(&["a", "b", "a", "a"]);
    assert_eq!(h.count("a"), 3);
    assert_eq!(h.count("b"), 1);
    assert_eq!(h.count("c"), 0);
    assert_eq!(h.entries.len(), 2);
}

#[test]
fn sorted_counts_ascend() {
    let h = hist_of(&["x", "y", "y", "z", "z", "z"]);
    let sorted = sorted_counts(&h);
    assert_eq!(sorted.len(), 3);
    assert_eq!(sorted[0], ("x".to_string(), 1));
    assert_eq!(sorted[1], ("y".to_string(), 2));
    assert_eq!(sorted[2], ("z".to_string(), 3));
}

#[test]
fn sorted_counts_is_permutation() {
    let h = hist_of(&["q", "w", "e"]);
    let mut sorted = sorted_counts(&h);
    sorted.sort_by(|a, b| a.0.cmp(&b.0));
    let mut expect = vec![
        ("e".to_string(), 1u64),
        ("q".to_string(), 1u64),
        ("w".to_string(), 1u64),
    ];
    expect.sort_by(|a, b| a.0.cmp(&b.0));
    assert_eq!(sorted, expect);
}

#[test]
fn decimal_rendering() {
    assert_eq!(u64_to_string(0), "0");
    assert_eq!(u64_to_string(7), "7");
    assert_eq!(u64_to_string(10), "10");
    assert_eq!(u64_to_string(120), "120");
    assert_eq!(u64_to_string(18446744073709551615), "18446744073709551615");
}

#[test]
fn render_single_line() {
    assert_eq!(render_line("a", 12), "a: 12");
    assert_eq!(render_line("!", 1), "!: 1");
}

#[test]
fn report_lines_in_given_order() {
    let pairs = vec![("a".to_string(), 1u64), ("b".to_string(), 2u64)];
    let lines = report_lines(&pairs);
    assert_eq!(lines, vec!["a: 1".to_string(), "b: 2".to_string()]);
}
