use vz::chart::{AggFunction, ChartRecommendation, ChartType, ChartTypeArg};
use vz::oneshot::summary::{agg_label, color_legend_hint, summary_lines, truncate_to_width, unused_columns_hint, unused_columns_hint_with_extra};
use vz::oneshot::{adaptive_height, count_skipped_y_rows, resolve_chart_type, DEFAULT_HEIGHT};

#[test]
fn test_unused_columns_hint_none_when_all_used() {
    let rec = ChartRecommendation {
        chart_type: ChartType::Line,
        x_column: "date".to_string(),
        y_column: Some("revenue".to_string()),
        color_column: Some("city".to_string()),
    };
    let headers = vec![
        "date".to_string(),
        "revenue".to_string(),
        "city".to_string(),
    ];
    assert_eq!(unused_columns_hint(&rec, &headers), None);
}

#[test]
fn test_unused_columns_hint_shows_unused() {
    let rec = ChartRecommendation {
        chart_type: ChartType::Line,
        x_column: "date".to_string(),
        y_column: Some("revenue".to_string()),
        color_column: None,
    };
    let headers = vec![
        "date".to_string(),
        "revenue".to_string(),
        "city".to_string(),
        "profit".to_string(),
    ];
    let hint = unused_columns_hint(&rec, &headers).unwrap();
    assert!(hint.contains("+2"));
    assert!(hint.contains("city"));
    assert!(hint.contains("profit"));
}

#[test]
fn test_unused_columns_hint_truncates_many() {
    let rec = ChartRecommendation {
        chart_type: ChartType::Line,
        x_column: "x".to_string(),
        y_column: None,
        color_column: None,
    };
    let headers = vec![
        "x".to_string(),
        "a".to_string(),
        "b".to_string(),
        "c".to_string(),
        "d".to_string(),
    ];
    let hint = unused_columns_hint(&rec, &headers).unwrap();
    assert!(hint.contains("+4"));
    assert!(hint.contains("a"));
    assert!(hint.contains("b"));
    assert!(hint.contains('…'));
}

#[test]
fn test_unused_columns_hint_single_suggests_command() {
    let rec = ChartRecommendation {
        chart_type: ChartType::Line,
        x_column: "date".to_string(),
        y_column: Some("revenue".to_string()),
        color_column: None,
    };
    let headers = vec![
        "date".to_string(),
        "revenue".to_string(),
        "profit".to_string(),
    ];
    let hint = unused_columns_hint(&rec, &headers).unwrap();
    assert!(hint.contains("+1: profit"));
    assert!(hint.contains("-y revenue,profit"));
}

#[test]
fn test_agg_label_display() {
    assert_eq!(agg_label(AggFunction::Sum), "sum");
    assert_eq!(agg_label(AggFunction::Mean), "mean");
    assert_eq!(agg_label(AggFunction::Count), "count");
    assert_eq!(agg_label(AggFunction::Max), "max");
    assert_eq!(agg_label(AggFunction::Min), "min");
}

#[test]
fn test_truncate_to_width_short_string() {
assert_eq!(truncate_to_width("hello", 80), "hello");
}

#[test]
fn test_truncate_to_width_exact() {
assert_eq!(truncate_to_width("12345", 5), "12345");
}

#[test]
fn test_truncate_to_width_overflow() {
let result = truncate_to_width("abcdefghij", 6);
assert_eq!(result, "abcde…");
assert_eq!(result.chars().count(), 6);
}

#[test]
fn test_truncate_to_width_one() {
assert_eq!(truncate_to_width("hello", 1), "…");
}

#[test]
fn test_truncate_to_width_fits() {
assert_eq!(truncate_to_width("hello", 10), "hello");
}

#[test]
fn test_truncate_to_width_truncates() {
let result = truncate_to_width("hello world", 6);
assert_eq!(result, "hello…");
}

#[test]
fn test_truncate_to_width_min() {
assert_eq!(truncate_to_width("abc", 1), "…");
}

#[test]
fn test_adaptive_height_bar_few_categories() {
    let rec = ChartRecommendation {
        chart_type: ChartType::Bar,
        x_column: "city".to_string(),
        y_column: Some("revenue".to_string()),
        color_column: None,
    };
    let headers = vec!["city".to_string(), "revenue".to_string()];
    let rows = vec![
        vec!["Tokyo".to_string(), "1000".to_string()],
        vec!["Osaka".to_string(), "500".to_string()],
    ];
    let height = adaptive_height(ChartType::Bar, &rec, &headers, &rows);
    assert_eq!(height, 10); // 2 * 4 + 2 = 10
}

#[test]
fn test_adaptive_height_bar_many_categories() {
    let rec = ChartRecommendation {
        chart_type: ChartType::Bar,
        x_column: "city".to_string(),
        y_column: Some("revenue".to_string()),
        color_column: None,
    };
    let headers = vec!["city".to_string(), "revenue".to_string()];
    let rows: Vec<Vec<String>> = (0..10)
        .map(|i| vec![format!("City{}", i), "100".to_string()])
        .collect();
    let height = adaptive_height(ChartType::Bar, &rec, &headers, &rows);
    assert_eq!(height, DEFAULT_HEIGHT); // > 5 categories, use default
}

#[test]
fn test_adaptive_height_non_bar() {
    let rec = ChartRecommendation {
        chart_type: ChartType::Line,
        x_column: "date".to_string(),
        y_column: Some("revenue".to_string()),
        color_column: None,
    };
    let headers = vec!["date".to_string(), "revenue".to_string()];
    // 1 row → adaptive: 1*3+6=9, clamped to min 12
    let rows = vec![vec!["2024-01".to_string(), "100".to_string()]];
    let height = adaptive_height(ChartType::Line, &rec, &headers, &rows);
    assert_eq!(height, 12);
}

#[test]
fn test_adaptive_height_line_small_dataset() {
    let rec = ChartRecommendation {
        chart_type: ChartType::Line,
        x_column: "date".to_string(),
        y_column: Some("value".to_string()),
        color_column: None,
    };
    let headers = vec!["date".to_string(), "value".to_string()];
    // 3 rows → height = 3*3+6 = 15
    let rows = vec![
        vec!["2024-01".into(), "10".into()],
        vec!["2024-02".into(), "20".into()],
        vec!["2024-03".into(), "30".into()],
    ];
    let height = adaptive_height(ChartType::Line, &rec, &headers, &rows);
    assert_eq!(height, 15);
}

#[test]
fn test_adaptive_height_scatter_small_dataset() {
    let rec = ChartRecommendation {
        chart_type: ChartType::Scatter,
        x_column: "x".to_string(),
        y_column: Some("y".to_string()),
        color_column: None,
    };
    let headers = vec!["x".to_string(), "y".to_string()];
    // 2 rows → height = 2*3+6 = 12
    let rows = vec![vec!["1".into(), "2".into()], vec!["3".into(), "4".into()]];
    let height = adaptive_height(ChartType::Scatter, &rec, &headers, &rows);
    assert_eq!(height, 12);
}

#[test]
fn test_adaptive_height_line_large_dataset_uses_default() {
    let rec = ChartRecommendation {
        chart_type: ChartType::Line,
        x_column: "date".to_string(),
        y_column: Some("value".to_string()),
        color_column: None,
    };
    let headers = vec!["date".to_string(), "value".to_string()];
    // 10 rows → exceeds threshold, uses DEFAULT_HEIGHT
    let rows: Vec<Vec<String>> = (0..10)
        .map(|i| vec![format!("2024-{:02}", i + 1), format!("{}", i * 10)])
        .collect();
    let height = adaptive_height(ChartType::Line, &rec, &headers, &rows);
    assert_eq!(height, DEFAULT_HEIGHT);
}

#[test]
fn test_resolve_chart_type_default() {
    let rec = ChartRecommendation {
        chart_type: ChartType::Line,
        x_column: "date".to_string(),
        y_column: Some("revenue".to_string()),
        color_column: None,
    };
    assert_eq!(resolve_chart_type(&rec, None), ChartType::Line);
}

#[test]
fn test_resolve_chart_type_override() {
    let rec = ChartRecommendation {
        chart_type: ChartType::Line,
        x_column: "date".to_string(),
        y_column: Some("revenue".to_string()),
        color_column: None,
    };
    assert_eq!(
        resolve_chart_type(&rec, Some(ChartTypeArg::Bar)),
        ChartType::Bar
    );
    assert_eq!(
        resolve_chart_type(&rec, Some(ChartTypeArg::Scatter)),
        ChartType::Scatter
    );
    assert_eq!(
        resolve_chart_type(&rec, Some(ChartTypeArg::Histogram)),
        ChartType::Histogram
    );
}

#[test]
fn test_resolve_chart_type_invalid_falls_back() {
    let rec = ChartRecommendation {
        chart_type: ChartType::Line,
        x_column: "date".to_string(),
        y_column: Some("revenue".to_string()),
        color_column: None,
    };
    // With ValueEnum, invalid types are rejected at parse time by clap.
    // None falls back to recommendation.
    assert_eq!(resolve_chart_type(&rec, None), ChartType::Line);
}

#[test]
fn unused_hint_counts_extra_y_as_used() {
    let rec = ChartRecommendation {
        chart_type: ChartType::Line,
        x_column: "date".to_string(),
        y_column: Some("revenue".to_string()),
        color_column: None,
    };
    let headers = vec!["date".to_string(), "revenue".to_string(), "profit".to_string()];
    assert_eq!(unused_columns_hint_with_extra(&rec, &headers, &["profit"]), None);
}

#[test]
fn unused_hint_exact_text() {
    let rec = ChartRecommendation {
        chart_type: ChartType::Bar,
        x_column: "city".to_string(),
        y_column: None,
        color_column: None,
    };
    let headers = vec!["city".to_string(), "sales".to_string()];
    assert_eq!(unused_columns_hint(&rec, &headers), Some("+1: sales (try -y sales)".to_string()));
    let headers = vec!["city".to_string(), "a".to_string(), "b".to_string(), "c".to_string()];
    assert_eq!(unused_columns_hint(&rec, &headers), Some("+3: a, b, c".to_string()));
}

#[test]
fn summary_lines_fit_on_one_line() {
    let parts = vec!["Line".to_string(), "x=date".to_string(), "+1: b".to_string()];
    assert_eq!(summary_lines(&parts, false, 80), vec!["Line | x=date | +1: b".to_string()]);
}

#[test]
fn summary_lines_move_hint_to_second_line() {
    let parts = vec!["Line".to_string(), "x=date".to_string(), "+2: aaaa, bbbb".to_string()];
    assert_eq!(
        summary_lines(&parts, false, 15),
        vec!["Line | x=date".to_string(), "  +2: aaaa, bb…".to_string()]
    );
}

#[test]
fn summary_lines_truncate_without_hint_and_tint() {
    let parts = vec!["Line".to_string(), "x=a_long_column".to_string()];
    assert_eq!(
        summary_lines(&parts, true, 10),
        vec!["\x1b[90mLine │ x=…\x1b[0m".to_string()]
    );
}

#[test]
fn adaptive_height_heatmap_counts_distinct_x() {
    let rec = ChartRecommendation {
        chart_type: ChartType::Heatmap,
        x_column: "missing".to_string(),
        y_column: None,
        color_column: None,
    };
    let headers = vec!["a".to_string(), "b".to_string()];
    let rows = vec![
        vec!["p".to_string(), "1".to_string()],
        vec!["q".to_string(), "1".to_string()],
        vec!["p".to_string(), "1".to_string()],
        vec!["r".to_string(), "1".to_string()],
    ];
    // Unknown x column falls back to the first column: 3 distinct values.
    assert_eq!(adaptive_height(ChartType::Heatmap, &rec, &headers, &rows), 14);
    assert_eq!(adaptive_height(ChartType::Histogram, &rec, &headers, &rows), DEFAULT_HEIGHT);
}

const SERIES_COLOR_NAMES: &[&str] = &["cyan", "yellow", "green", "magenta", "red", "blue"];

#[test]
fn test_color_legend_hint_basic() {
    let headers = vec!["city".to_string(), "revenue".to_string()];
    let rows = vec![
        vec!["Tokyo".to_string(), "1000".to_string()],
        vec!["Osaka".to_string(), "2000".to_string()],
    ];
    let result = color_legend_hint("city", &headers, &rows, SERIES_COLOR_NAMES);
    assert!(result.contains("Tokyo=cyan"));
    assert!(result.contains("Osaka=yellow"));
}

#[test]
fn test_color_legend_hint_missing_column() {
    let headers = vec!["x".to_string()];
    let rows = vec![vec!["a".to_string()]];
    let result = color_legend_hint("missing", &headers, &rows, SERIES_COLOR_NAMES);
    assert_eq!(result, "color=missing");
}

#[test]
fn color_legend_exact_with_overflow() {
    let headers = vec!["g".to_string()];
    let rows = vec![
        vec!["a".to_string()],
        vec!["".to_string()],
        vec!["b".to_string()],
        vec!["a".to_string()],
        vec!["c".to_string()],
    ];
    assert_eq!(color_legend_hint("g", &headers, &rows, &["cyan", "red"]), "color=g [a=cyan, b=red +1]");
}

#[test]
fn skipped_rows_counts_unreadable_y() {
    let rec = ChartRecommendation {
        chart_type: ChartType::Line,
        x_column: "d".to_string(),
        y_column: Some("v".to_string()),
        color_column: None,
    };
    let headers = vec!["d".to_string(), "v".to_string()];
    let rows = vec![
        vec!["1".to_string(), " 10 ".to_string()],
        vec!["2".to_string(), "n/a".to_string()],
        vec!["3".to_string()],
        vec!["4".to_string(), "1e3".to_string()],
        vec!["5".to_string(), "-inf".to_string()],
    ];
    assert_eq!(count_skipped_y_rows(&rec, &headers, &rows), 2);
    let no_y = ChartRecommendation { y_column: None, ..rec.clone() };
    assert_eq!(count_skipped_y_rows(&no_y, &headers, &rows), 0);
}
