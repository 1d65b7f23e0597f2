use vz::util::path_label;

#[test]
fn test_path_label_with_extension() {
    assert_eq!(path_label("sales.csv"), "sales");
}

#[test]
fn test_path_label_without_extension() {
    assert_eq!(path_label("data"), "data");
}

#[test]
fn test_path_label_multiple_dots() {
    assert_eq!(path_label("data.backup.csv"), "data.backup");
}

#[test]
fn test_path_label_full_path() {
    assert_eq!(path_label("/tmp/reports/q1.csv"), "q1");
}

#[test]
fn test_path_label_empty_path() {
    assert_eq!(path_label(""), "unknown");
}
