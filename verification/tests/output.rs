use vz::output::html::{html_escape, wrap_svg_in_html};
use vz::output::markdown::escape_cell;
use vz::output::svg::xml_escape;
use vz::output::table::col_width;
use vz::output::table::format_all_columns;
use vz::output::table::agg_header;
use vz::output::markdown::format_markdown_all;
use vz::output::html::{PAGE_BODY, PAGE_END, PAGE_HEAD, PAGE_SCRIPT, PAGE_STYLE};
use vz::output::RecommendationOutput;
use vz::chart::{make_recommendation, ChartType};
use vz::chart::AggFunction;

const SAMPLE_SVG: &str = r##"<svg xmlns="http://www.w3.org/2000/svg" viewBox="0 0 640 384"><rect width="100%" height="100%" fill="#1e1e1e"/><text><tspan>Hello</tspan></text></svg>"##;

#[test]
fn test_produces_valid_html5_structure() {
    let html = wrap_svg_in_html(SAMPLE_SVG, "Test Chart", "#1e1e1e");
    assert!(html.starts_with("<!DOCTYPE html>"));
    assert!(html.contains("<html"));
    assert!(html.contains("</html>"));
    assert!(html.contains("<head>"));
    assert!(html.contains("</head>"));
    assert!(html.contains("<body>"));
    assert!(html.contains("</body>"));
}

#[test]
fn test_contains_original_svg() {
    let html = wrap_svg_in_html(SAMPLE_SVG, "Test", "#1e1e1e");
    assert!(html.contains(SAMPLE_SVG));
}

#[test]
fn test_contains_inline_javascript() {
    let html = wrap_svg_in_html(SAMPLE_SVG, "Test", "#1e1e1e");
    assert!(html.contains("<script>"));
    assert!(html.contains("</script>"));
}

#[test]
fn test_no_external_dependencies() {
    let html = wrap_svg_in_html(SAMPLE_SVG, "Test", "#1e1e1e");
    assert!(!html.contains("src=\"http"));
    assert!(!html.contains("src=\"//"));
    assert!(!html.contains("href=\"http"));
}

#[test]
fn test_has_viewport_meta() {
    let html = wrap_svg_in_html(SAMPLE_SVG, "Test", "#1e1e1e");
    assert!(html.contains("viewport"));
}

#[test]
fn test_has_charset_utf8() {
    let html = wrap_svg_in_html(SAMPLE_SVG, "Test", "#1e1e1e");
    assert!(html.contains("utf-8"));
}

#[test]
fn test_custom_title() {
    let html = wrap_svg_in_html(SAMPLE_SVG, "Revenue by City", "#1e1e1e");
    assert!(html.contains("<title>Revenue by City</title>"));
}

#[test]
fn test_title_html_escaped() {
    let html = wrap_svg_in_html(SAMPLE_SVG, "Sales <Q1> & \"Q2\"", "#1e1e1e");
    assert!(html.contains("&lt;Q1&gt;"));
    assert!(html.contains("&amp;"));
    assert!(html.contains("&quot;Q2&quot;"));
    assert!(!html.contains("<Q1>"));
}

#[test]
fn test_background_color_applied() {
    let html = wrap_svg_in_html(SAMPLE_SVG, "Test", "#ffffff");
    assert!(html.contains("background: #ffffff"));
}

#[test]
fn test_has_inline_styles() {
    let html = wrap_svg_in_html(SAMPLE_SVG, "Test", "#1e1e1e");
    assert!(html.contains("<style>"));
}

#[test]
fn test_tooltip_hover_events() {
    let html = wrap_svg_in_html(SAMPLE_SVG, "Test", "#1e1e1e");
    assert!(html.contains("mouseenter"));
    assert!(html.contains("mouseleave"));
}

#[test]
fn test_html_escape_function() {
    assert_eq!(html_escape("a < b & c"), "a &lt; b &amp; c");
    assert_eq!(html_escape("\"hi\""), "&quot;hi&quot;");
    assert_eq!(html_escape("normal text"), "normal text");
}

#[test]
fn test_escape_cell_pipe_and_newline() {
    assert_eq!(escape_cell("a|b"), "a\\|b");
    assert_eq!(escape_cell("a\nb"), "a<br/>b");
    assert_eq!(escape_cell("a\r\nb"), "a<br/>b");
    assert_eq!(escape_cell("plain"), "plain");
}

#[test]
fn svg_test_xml_escape() {
    assert_eq!(xml_escape("<test>&"), "&lt;test&gt;&amp;");
}

#[test]
fn table_test_col_width_uses_max_data_length() {
    let rows = vec![
        vec!["ab".to_string(), "12345".to_string()],
        vec!["abc".to_string(), "1".to_string()],
    ];
    assert_eq!(col_width(&rows, 0, 2), 3); // "abc" is longest
    assert_eq!(col_width(&rows, 1, 2), 5); // "12345" is longest
}

#[test]
fn table_test_col_width_respects_minimum() {
    let rows = vec![vec!["a".to_string()]];
    assert_eq!(col_width(&rows, 0, 10), 10);
}

#[test]
fn table_test_col_width_empty_rows() {
    let rows: Vec<Vec<String>> = vec![];
    assert_eq!(col_width(&rows, 0, 5), 5);
}

#[test]
fn table_test_col_width_missing_index() {
    let rows = vec![vec!["a".to_string()]];
    assert_eq!(col_width(&rows, 5, 3), 3);
}

#[test]
fn html_page_is_the_pieces_around_title_color_and_svg() {
    let html = wrap_svg_in_html("<svg/>", "a&b", "#000");
    let expected = format!("{PAGE_HEAD}a&amp;b{PAGE_STYLE}#000{PAGE_BODY}<svg/>{PAGE_SCRIPT}#000{PAGE_END}");
    assert_eq!(html, expected);
    assert!(html.ends_with("</html>"));
}

#[test]
fn agg_header_names() {
    assert_eq!(agg_header("revenue", AggFunction::Sum), "revenue");
    assert_eq!(agg_header("revenue", AggFunction::Mean), "mean(revenue)");
    assert_eq!(agg_header("x", AggFunction::Count), "count(x)");
    assert_eq!(agg_header("x", AggFunction::Max), "max(x)");
    assert_eq!(agg_header("x", AggFunction::Min), "min(x)");
}

#[test]
fn col_width_counts_bytes() {
    let rows = vec![vec!["héé".to_string()]];
    assert_eq!(col_width(&rows, 0, 1), 5);
}

#[test]
fn all_columns_table_layout() {
    let headers = vec!["city".to_string(), "n".to_string()];
    let rows = vec![
        vec!["Tokyo".to_string(), "10".to_string()],
        vec!["Osaka".to_string(), "200".to_string()],
        vec!["Kyoto".to_string()],
    ];
    let lines = format_all_columns(&headers, &rows, Some(2));
    assert_eq!(
        lines,
        vec![
            "city   n  ".to_string(),
            "-----  ---  ".to_string(),
            "Tokyo  10 ".to_string(),
            "Osaka  200".to_string(),
        ]
    );
}

#[test]
fn markdown_table_layout() {
    let headers = vec!["a|b".to_string(), "c".to_string()];
    let rows = vec![vec!["x\r\ny".to_string()], vec!["1".to_string(), "2".to_string(), "3".to_string()]];
    let lines = format_markdown_all(&headers, &rows, None);
    assert_eq!(
        lines,
        vec![
            "| a\\|b | c |".to_string(),
            "|---|---|".to_string(),
            "| x<br/>y |  |".to_string(),
            "| 1 | 2 |".to_string(),
        ]
    );
}

#[test]
fn markdown_escape_lone_carriage_return() {
    assert_eq!(escape_cell("a\rb\n\rc"), "a<br/>b<br/><br/>c");
}

#[test]
fn recommendation_output_uses_lower_case_type() {
    let rec = make_recommendation(ChartType::Heatmap, "a", Some("b"), None);
    let out = RecommendationOutput::from_recommendation(&rec);
    assert_eq!(out.chart_type, "heatmap");
    assert_eq!(out.x, "a");
    assert_eq!(out.y.as_deref(), Some("b"));
    assert_eq!(out.color, None);
}
