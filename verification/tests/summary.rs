use vz::chart::{AggFunction, ChartRecommendation, ChartType};
use vz::oneshot::summary::{build_summary_parts, SummaryContext};

const SERIES_NAMES: &[&str] = &["cyan", "yellow", "green", "magenta", "red", "blue"];

fn s(v: &str) -> String {
    v.to_string()
}

#[test]
fn test_build_summary_parts_basic() {
    let rec = ChartRecommendation {
        chart_type: ChartType::Line,
        x_column: s("date"),
        y_column: Some(s("revenue")),
        color_column: None,
    };
    let headers = vec![s("date"), s("revenue")];
    let rows = vec![vec![s("2024-01"), s("1000")], vec![s("2024-02"), s("2000")]];
    // The y range as the number formatting writes 1000 and 2000.
    let parts = build_summary_parts(&SummaryContext {
        recommendation: &rec,
        chart_type: ChartType::Line,
        headers: &headers,
        rows: &rows,
        extra_y_columns: &[],
        agg: AggFunction::Sum,
        y_range: Some((s("1.0k"), s("2.0k"))),
        spark: None,
        trend: None,
        skipped_rows: 0,
        color_names: SERIES_NAMES,
    });
    assert_eq!(parts[0], "Line");
    assert_eq!(parts[1], "x=date");
    assert!(parts[2].starts_with("y=revenue"));
    assert!(parts[2].contains("1.0k"));
    assert!(parts[2].contains("2.0k"));
    assert!(parts.iter().any(|p| p.contains("2 rows")));
}

#[test]
fn test_build_summary_parts_with_agg_stats() {
    let rec = ChartRecommendation {
        chart_type: ChartType::Bar,
        x_column: s("city"),
        y_column: Some(s("revenue")),
        color_column: None,
    };
    let headers = vec![s("city"), s("revenue")];
    let rows = vec![vec![s("Tokyo"), s("1000")], vec![s("Tokyo"), s("2000")]];
    let parts = build_summary_parts(&SummaryContext {
        recommendation: &rec,
        chart_type: ChartType::Bar,
        headers: &headers,
        rows: &rows,
        extra_y_columns: &[],
        agg: AggFunction::Sum,
        y_range: Some((s("800"), s("4.2k"))),
        spark: None,
        trend: None,
        skipped_rows: 0,
        color_names: SERIES_NAMES,
    });
    assert!(parts[2].contains("4.2k"), "Expected 4.2k in parts: {:?}", parts);
}

#[test]
fn test_build_summary_parts_non_sum_agg() {
    let rec = ChartRecommendation {
        chart_type: ChartType::Bar,
        x_column: s("city"),
        y_column: Some(s("revenue")),
        color_column: None,
    };
    let headers = vec![s("city"), s("revenue")];
    let rows = vec![vec![s("Tokyo"), s("1000")]];
    let parts = build_summary_parts(&SummaryContext {
        recommendation: &rec,
        chart_type: ChartType::Bar,
        headers: &headers,
        rows: &rows,
        extra_y_columns: &[],
        agg: AggFunction::Mean,
        y_range: Some((s("1.0k"), s("1.0k"))),
        spark: None,
        trend: None,
        skipped_rows: 0,
        color_names: SERIES_NAMES,
    });
    assert!(parts[2].contains("mean(revenue)"), "Expected mean(revenue): {:?}", parts);
    assert!(!parts[2].contains('–'), "Should not contain range for non-sum agg");
}

#[test]
fn test_build_summary_parts_extra_y() {
    let rec = ChartRecommendation {
        chart_type: ChartType::Line,
        x_column: s("date"),
        y_column: Some(s("revenue")),
        color_column: None,
    };
    let headers = vec![s("date"), s("revenue"), s("profit")];
    let rows = vec![vec![s("2024-01"), s("1000"), s("200")]];
    let extra = vec![(s("profit"), None)];
    let parts = build_summary_parts(&SummaryContext {
        recommendation: &rec,
        chart_type: ChartType::Line,
        headers: &headers,
        rows: &rows,
        extra_y_columns: &extra,
        agg: AggFunction::Sum,
        y_range: None,
        spark: None,
        trend: None,
        skipped_rows: 0,
        color_names: SERIES_NAMES,
    });
    assert!(parts.iter().any(|p| p.contains("y+=profit")), "Expected y+=profit: {:?}", parts);
}

#[test]
fn test_build_summary_parts_shows_skipped_rows() {
    let rec = ChartRecommendation {
        chart_type: ChartType::Line,
        x_column: s("date"),
        y_column: Some(s("revenue")),
        color_column: None,
    };
    let headers = vec![s("date"), s("revenue")];
    let rows = vec![
        vec![s("2024-01"), s("1000")],
        vec![s("2024-02"), s("N/A")],
        vec![s("2024-03"), s("2000")],
    ];
    let parts = build_summary_parts(&SummaryContext {
        recommendation: &rec,
        chart_type: ChartType::Line,
        headers: &headers,
        rows: &rows,
        extra_y_columns: &[],
        agg: AggFunction::Sum,
        y_range: Some((s("1.0k"), s("2.0k"))),
        spark: None,
        trend: None,
        skipped_rows: 1,
        color_names: SERIES_NAMES,
    });
    assert!(
        parts.iter().any(|p| p.contains("3 rows (1 skipped)")),
        "Expected '3 rows (1 skipped)' in parts: {:?}",
        parts
    );
}

#[test]
fn summary_parts_are_exact_for_the_documented_example() {
    let rec = ChartRecommendation {
        chart_type: ChartType::Line,
        x_column: s("date"),
        y_column: Some(s("revenue")),
        color_column: Some(s("city")),
    };
    let headers = vec![s("date"), s("revenue"), s("city"), s("units")];
    let rows = vec![
        vec![s("d1"), s("100"), s("Tokyo"), s("1")],
        vec![s("d2"), s("500"), s("Osaka"), s("2")],
        vec![s("d3"), s("300"), s("Tokyo"), s("3")],
    ];
    let extra = vec![(s("units"), Some(s("u")))];
    let parts = build_summary_parts(&SummaryContext {
        recommendation: &rec,
        chart_type: ChartType::Line,
        headers: &headers,
        rows: &rows,
        extra_y_columns: &extra,
        agg: AggFunction::Sum,
        y_range: Some((s("100"), s("500"))),
        spark: Some(s("▁▃▅▇")),
        trend: Some(s("↑ +50%")),
        skipped_rows: 2,
        color_names: SERIES_NAMES,
    });
    assert_eq!(
        parts,
        vec![
            s("Line"),
            s("x=date"),
            s("y=revenue (100–500) ▁▃▅▇"),
            s("↑ +50%"),
            s("y+=u"),
            s("color=city [Tokyo=cyan, Osaka=yellow]"),
            s("3 rows (2 skipped)"),
        ]
    );
}

#[test]
fn summary_bar_chart_leaves_out_trend_and_sparkline() {
    let rec = ChartRecommendation {
        chart_type: ChartType::Bar,
        x_column: s("city"),
        y_column: Some(s("revenue")),
        color_column: None,
    };
    let headers = vec![s("city"), s("revenue"), s("units")];
    let rows = vec![vec![s("Tokyo"), s("1"), s("2")]];
    let parts = build_summary_parts(&SummaryContext {
        recommendation: &rec,
        chart_type: ChartType::Bar,
        headers: &headers,
        rows: &rows,
        extra_y_columns: &[],
        agg: AggFunction::Count,
        y_range: Some((s("1"), s("1"))),
        spark: Some(s("▁█")),
        trend: Some(s("→ stable")),
        skipped_rows: 0,
        color_names: SERIES_NAMES,
    });
    assert_eq!(
        parts,
        vec![
            s("Bar"),
            s("x=city"),
            s("y=count(revenue)"),
            s("1 row"),
            s("+1: units (try -y revenue,units or -c units)"),
        ]
    );
}
