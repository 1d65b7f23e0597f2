use vz::output::stats::{column_values, distinct_values, range_text, text_range, unique_text};

fn rows(v: &[&[&str]]) -> Vec<Vec<String>> {
    v.iter().map(|r| r.iter().map(|s| s.to_string()).collect()).collect()
}

#[test]
fn column_values_skip_blank_and_missing() {
    let r = rows(&[&["a", "x"], &["b", "  "], &["c"], &["d", "y"]]);
    assert_eq!(column_values(&r, 1), vec!["x".to_string(), "y".to_string()]);
}

#[test]
fn categorical_unique_count() {
    let r = rows(&[&["Tokyo"], &["Osaka"], &["Tokyo"]]);
    let values = column_values(&r, 0);
    let distinct = distinct_values(&values);
    assert_eq!(distinct, vec!["Tokyo".to_string(), "Osaka".to_string()]);
    assert_eq!(unique_text(distinct.len()), "2 unique");
}

#[test]
fn temporal_range_text() {
    let r = rows(&[&["2024-06"], &["2024-01"], &["2024-03"]]);
    let values = column_values(&r, 0);
    let (lo, hi) = text_range(&values).unwrap();
    assert_eq!(range_text(&lo, &hi), "2024-01..2024-06");
    assert_eq!(range_text("x", "x"), "x");
    assert_eq!(text_range(&[]), None);
}

#[test]
fn text_order_is_by_character() {
    let values = vec!["b".to_string(), "ab".to_string(), "a".to_string(), "é".to_string()];
    let (lo, hi) = text_range(&values).unwrap();
    assert_eq!(lo, "a");
    assert_eq!(hi, "é");
}

#[test]
fn temporal_range_of_unsorted_dates() {
    let r = rows(&[&["2024-03-01"], &["2024-01-15"], &["2024-06-20"], &["2024-02-10"]]);
    let (lo, hi) = text_range(&column_values(&r, 0)).unwrap();
    assert_eq!(lo, "2024-01-15");
    assert_eq!(hi, "2024-06-20");
}
