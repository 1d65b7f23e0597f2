use vz::util::{strip_outer, strip_unit_suffix, Scale};

#[test]
fn strip_outer_removes_group_separators() {
    assert_eq!(strip_outer("1,000"), "1000");
    assert_eq!(strip_outer("1,234,567"), "1234567");
    assert_eq!(strip_outer("1 000"), "1000");
    assert_eq!(strip_outer("1_000'000"), "1000000");
}

#[test]
fn strip_outer_removes_currency() {
    assert_eq!(strip_outer("$100"), "100");
    assert_eq!(strip_outer("€50"), "50");
    assert_eq!(strip_outer("¥1000"), "1000");
    assert_eq!(strip_outer("USD 42"), "42");
    assert_eq!(strip_outer("100€"), "100");
    assert_eq!(strip_outer("-$5"), "-5");
}

#[test]
fn strip_outer_accounting_and_quotes() {
    assert_eq!(strip_outer("(42)"), "-42");
    assert_eq!(strip_outer("\"1,000\""), "1000");
    assert_eq!(strip_outer("' 7 '"), "7");
    assert_eq!(strip_outer("+5"), "5");
    assert_eq!(strip_outer("(-3)"), "-3");
}

#[test]
fn strip_outer_keeps_text() {
    assert_eq!(strip_outer("Tokyo"), "Tokyo");
    assert_eq!(strip_outer("  "), "");
    assert_eq!(strip_outer("N/A"), "N/A");
}

#[test]
fn strip_unit_suffix_scales() {
    assert_eq!(strip_unit_suffix("10k"), Some(("10".to_string(), Scale::Kilo)));
    assert_eq!(strip_unit_suffix("2.5m"), Some(("2.5".to_string(), Scale::Mega)));
    assert_eq!(strip_unit_suffix("100g"), Some(("100".to_string(), Scale::Giga)));
    assert_eq!(strip_unit_suffix("10gib"), Some(("10".to_string(), Scale::Gibi)));
    assert_eq!(strip_unit_suffix("10gb"), Some(("10".to_string(), Scale::Giga)));
    assert_eq!(strip_unit_suffix("5b"), Some(("5".to_string(), Scale::Giga)));
    assert_eq!(strip_unit_suffix("64bps"), Some(("64".to_string(), Scale::One)));
    assert_eq!(strip_unit_suffix("42"), Some(("42".to_string(), Scale::One)));
}

#[test]
fn strip_unit_suffix_rejects_bare_or_wordy() {
    assert_eq!(strip_unit_suffix("m"), None);
    assert_eq!(strip_unit_suffix("abc"), Some(("abc".to_string(), Scale::One)));
    assert_eq!(strip_unit_suffix("book"), None);
    assert_eq!(strip_unit_suffix("tokyo"), Some(("tokyo".to_string(), Scale::One)));
    assert_eq!(strip_unit_suffix("1.k"), Some(("1.".to_string(), Scale::Kilo)));
}
