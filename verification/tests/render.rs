use vz::render::bar::{compute_bar_width, truncate_label};
use vz::render::dedup_tick_labels;
use vz::render::heatmap::format_count;
use vz::render::histogram::compute_integer_ticks;
use vz::render::heatmap::HeatmapChart;
use vz::render::HeatmapData;

#[test]
fn test_dedup_tick_labels() {
    let ticks = vec![
        "100".to_string(),
        "100".to_string(),
        "50".to_string(),
        "50".to_string(),
        "0".to_string(),
    ];
    let deduped = dedup_tick_labels(&ticks);
    assert_eq!(deduped, vec!["100", "", "50", "", "0"]);
}

#[test]
fn test_dedup_tick_labels_no_dups() {
    let ticks = vec!["100".to_string(), "50".to_string(), "0".to_string()];
    let deduped = dedup_tick_labels(&ticks);
    assert_eq!(deduped, ticks);
}

#[test]
fn test_dedup_tick_labels_all_same() {
    // When all tick labels are identical (e.g., axis with zero range),
    // only the first should remain; rest become empty.
    let ticks = vec![
        "0".to_string(),
        "0".to_string(),
        "0".to_string(),
        "0".to_string(),
    ];
    let deduped = dedup_tick_labels(&ticks);
    assert_eq!(deduped, vec!["0", "", "", ""]);
}

#[test]
fn test_compute_bar_width() {
    // Zero bars
    assert_eq!(compute_bar_width(80, 0), 3);
    // One bar in 80 width → clamped to max 20
    assert_eq!(compute_bar_width(80, 1), 20);
    // Many bars → should be at least 3
    assert_eq!(compute_bar_width(20, 10), 3);
    // Normal case
    let w = compute_bar_width(80, 5);
    assert!((3..=20).contains(&w));
}

#[test]
fn test_truncate_label() {
    assert_eq!(truncate_label("Tokyo", 10), "Tokyo");
    assert_eq!(truncate_label("Tokyo", 5), "Tokyo");
    assert_eq!(truncate_label("San Francisco", 5), "San …");
    assert_eq!(truncate_label("Philadelphia", 3), "Ph…");
    assert_eq!(truncate_label("AB", 1), "…");
    assert_eq!(truncate_label("X", 1), "X");
}

#[test]
fn test_format_count_zero() {
    assert_eq!(format_count(0), "·");
}

#[test]
fn test_format_count_nonzero() {
    assert_eq!(format_count(5), "5");
    assert_eq!(format_count(42), "42");
}

#[test]
fn test_compute_integer_ticks() {
    let ticks = compute_integer_ticks(5, 5);
    // Should produce decreasing ticks from nice_max down to 0
    assert!(!ticks.is_empty());
    assert_eq!(ticks.last().unwrap(), "0");
    // First tick should be >= max_int
    let first: usize = ticks[0].parse().unwrap();
    assert!(first >= 5);
}

#[test]
fn test_compute_integer_ticks_small() {
    let ticks = compute_integer_ticks(1, 5);
    assert_eq!(ticks.last().unwrap(), "0");
    let first: usize = ticks[0].parse().unwrap();
    assert!(first >= 1);
}

#[test]
fn integer_ticks_exact() {
    assert_eq!(compute_integer_ticks(5, 5), vec!["5", "4", "3", "2", "1", "0"]);
    assert_eq!(compute_integer_ticks(10, 3), vec!["10", "5", "0"]);
    assert_eq!(compute_integer_ticks(7, 3), vec!["9", "6", "3", "0"]);
    assert_eq!(compute_integer_ticks(0, 4), vec!["0"]);
}

#[test]
fn bar_width_exact() {
    assert_eq!(compute_bar_width(80, 5), 14);
    assert_eq!(compute_bar_width(1, 3), 3);
}

#[test]
fn heatmap_chart_holds_its_data() {
    let data = HeatmapData {
        title: None,
        row_labels: vec!["A".into()],
        col_labels: vec!["x".into()],
        counts: vec![vec![3]],
        max_count: 3,
    };
    let chart = HeatmapChart::new(&data);
    assert_eq!(chart.data.max_count, 3);
}
