use vz::chart::{make_recommendation, AggFunction, ChartType, SortOrder};
use vz::present::chart_loader::chart_choices;
use vz::present::ChartBlock;
use vz::diagnostics::{format_column_suffix, suggest_column};
use vz::loader::space::load_space;
use vz::loader::{delimited_from_records, LoadError};
use vz::output::markdown::two_col_markdown_lines;
use vz::output::table::two_col_table_lines;
use vz::output::{non_bar_warning, rows_notice, table_plan, TablePlan};
use vz::pipeline::validate_color_column;
use vz::present::app::{Key, PresentApp};
use vz::present::inline::{parse_inline_spans, SpanStyle};
use vz::present::parser::{chart_block_warnings, parse_presentation, presentation_warnings};
use vz::present::{Presentation, Slide, SlideElement};

fn s(v: &str) -> String {
    v.to_string()
}

fn strings(v: &[&str]) -> Vec<String> {
    v.iter().map(|x| x.to_string()).collect()
}

#[test]
fn validate_color_column_suggests_close_match() {
    let headers = vec![s("city"), s("revenue")];
    let err = validate_color_column(&headers, Some("ctiy")).unwrap_err();
    let msg = err.message();
    assert!(msg.contains("Did you mean 'city'?"), "{msg}");
    let err = validate_color_column(&headers, Some("City")).unwrap_err();
    let msg = err.message();
    assert!(msg.contains("case-sensitive"), "{msg}");
}

#[test]
fn unknown_color_column_message_is_exact() {
    let headers = vec![s("city"), s("revenue")];
    let err = validate_color_column(&headers, Some("ctiy")).unwrap_err();
    assert_eq!(err.suggestion, Some(s("city")));
    assert_eq!(
        err.message(),
        "Color column 'ctiy' not found. Available columns: city, revenue. Did you mean 'city'?"
    );
    let err = validate_color_column(&headers, Some("zzzzzz")).unwrap_err();
    assert_eq!(err.suggestion, None);
    assert_eq!(err.message(), "Color column 'zzzzzz' not found. Available columns: city, revenue");
}

#[test]
fn suggestion_prefers_case_match_then_closest() {
    let headers = strings(&["Region", "regime", "date"]);
    assert_eq!(suggest_column(&headers, "region"), Some(s("Region")));
    assert_eq!(suggest_column(&headers, "datr"), Some(s("date")));
    assert_eq!(suggest_column(&headers, "population"), None);
    assert_eq!(suggest_column(&[], "x"), None);
}

#[test]
fn suggestions_stop_at_two_edits() {
    let headers = strings(&["kitten", "city"]);
    // Two edits away (a swapped pair): suggested.
    assert_eq!(suggest_column(&headers, "ctiy"), Some(s("city")));
    // Three edits away: not suggested.
    assert_eq!(suggest_column(&headers, "sitting"), None);
    // The first of equally close headers wins.
    assert_eq!(suggest_column(&strings(&["ab", "ba"]), "aa"), Some(s("ab")));
}

#[test]
fn column_suffix_mentions_case_only_for_case_matches() {
    assert_eq!(
        format_column_suffix(Some("City"), "city"),
        ". Did you mean 'City'? (column names are case-sensitive)"
    );
    assert_eq!(format_column_suffix(Some("city"), "ctiy"), ". Did you mean 'city'?");
    assert_eq!(format_column_suffix(None, "ctiy"), "");
}

#[test]
fn delimited_records_with_header_row() {
    let recs = vec![
        Some(strings(&["name", "n"])),
        Some(strings(&["a", "1"])),
        None,
        Some(strings(&["b", "2"])),
    ];
    let d = delimited_from_records(recs, false).unwrap();
    assert_eq!(d.headers, strings(&["name", "n"]));
    assert_eq!(d.rows, vec![strings(&["a", "1"]), strings(&["b", "2"])]);
}

#[test]
fn delimited_records_numeric_first_row_is_data() {
    let recs = vec![Some(strings(&["1", "2.5"])), Some(strings(&["3", "4"]))];
    let d = delimited_from_records(recs, false).unwrap();
    assert_eq!(d.headers, strings(&["col1", "col2"]));
    assert_eq!(d.rows.len(), 2);
    let recs = vec![Some(strings(&["x", "y"]))];
    let d = delimited_from_records(recs, true).unwrap();
    assert_eq!(d.headers, strings(&["col1", "col2"]));
    assert_eq!(d.rows, vec![strings(&["x", "y"])]);
}

#[test]
fn delimited_records_unreadable_header_is_an_error() {
    let recs = vec![None, Some(strings(&["a"]))];
    assert_eq!(delimited_from_records(recs, false).unwrap_err(), LoadError::CsvHeaders);
    let d = delimited_from_records(vec![], false).unwrap();
    assert!(d.headers.is_empty() && d.rows.is_empty());
}

#[test]
fn chart_block_invalid_values_warn() {
    let lines = strings(&["source: data.csv", "type: sparkline", "bins: not_a_number", "height: abc", "x: m"]);
    let w = chart_block_warnings(&lines);
    assert_eq!(w.len(), 3);
    assert!(w[0].contains("unknown chart type 'sparkline'"), "{w:?}");
    assert!(w[1].contains("invalid bins 'not_a_number'"), "{w:?}");
    assert!(w[2].contains("invalid height 'abc'"), "{w:?}");
    let ok = strings(&["type: BAR", "sort: Desc", "agg: mean", "top: 5", "bins: 20", "height: 20"]);
    assert!(chart_block_warnings(&ok).is_empty());
    let bad = strings(&["sort: sideways", "agg: median", "top: -1"]);
    let w = chart_block_warnings(&bad);
    assert_eq!(w.len(), 3);
    assert!(w[0].starts_with("warning: unknown sort 'sideways'"));
    assert!(w[1].starts_with("warning: unknown agg 'median'"));
    assert!(w[2].starts_with("warning: invalid top '-1'"));
}

#[test]
fn presentation_warnings_come_from_closed_chart_blocks() {
    let md = "# A\n\n```chart\nsource: a.csv\ntype: pie\n```\n\n# B\n\n```chart\nsource: b.csv\nheight: tall\n";
    let w = presentation_warnings(md);
    assert_eq!(w.len(), 1, "{w:?}");
    assert!(w[0].contains("'pie'"));
}

#[test]
fn unclosed_chart_block_adds_nothing() {
    let p = parse_presentation("# Slide\n\ntext\n\n```chart\nsource: data.csv\nx: month\n");
    assert_eq!(p.slides.len(), 1);
    assert!(!p.slides[0].content.iter().any(|e| matches!(e, SlideElement::Chart(_))));
    let q = parse_presentation("# Slide\n\ntext\n");
    assert_eq!(p, q);
}

#[test]
fn blank_and_rule_lines_make_no_slides() {
    let p = parse_presentation("\n   \n---\n\n  ---  \n\t\n");
    assert!(p.slides.is_empty());
}

fn slides(n: usize) -> Presentation {
    Presentation {
        slides: (0..n).map(|i| Slide { title: Some(format!("{i}")), content: vec![] }).collect(),
    }
}

#[test]
fn multi_digit_jump_goes_to_one_based_slide() {
    let mut app = PresentApp::new(slides(12), String::new());
    app.handle_key(Key::Char('1'));
    app.handle_key(Key::Char('1'));
    app.handle_key(Key::Enter);
    assert_eq!(app.current_slide, 10);
    assert!(app.input_buffer.is_empty());
    assert!(!app.should_quit);
    let mut app = PresentApp::new(slides(3), String::new());
    app.handle_key(Key::Char('9'));
    app.handle_key(Key::Char('9'));
    app.handle_key(Key::Enter);
    assert_eq!(app.current_slide, 2);
    app.handle_key(Key::Char('0'));
    app.handle_key(Key::Enter);
    assert_eq!(app.current_slide, 0);
}

#[test]
fn inline_spans_rejoin_to_the_text() {
    let text = "a **b** *c* `d` e";
    let spans = parse_inline_spans(text);
    let rejoined: String = spans
        .iter()
        .map(|sp| match sp.style {
            SpanStyle::Plain => sp.text.clone(),
            SpanStyle::Bold => format!("**{}**", sp.text),
            SpanStyle::Italic => format!("*{}*", sp.text),
            SpanStyle::Code => format!("`{}`", sp.text),
        })
        .collect();
    assert_eq!(rejoined, text);
    let joined: String = spans.iter().map(|sp| sp.text.as_str()).collect();
    assert_eq!(joined, "a b c d e");
    let plain = parse_inline_spans("hello * world");
    assert_eq!(plain.len(), 1);
    assert_eq!(plain[0].style, SpanStyle::Plain);
}

#[test]
fn space_table_rows_have_one_trimmed_cell_per_header() {
    let content = "NAME   STATUS   AGE\nweb    Running  5d\ndb     Pending  1h\n";
    let d = load_space(content, false).unwrap();
    assert_eq!(d.headers.len(), 3);
    assert_eq!(d.rows.len(), 2);
    for r in &d.rows {
        assert_eq!(r.len(), d.headers.len());
        for c in r {
            assert_eq!(c.trim(), c);
        }
    }
}

#[test]
fn table_plan_aggregates_only_bar_charts_with_both_columns() {
    let headers = strings(&["city", "revenue"]);
    let rec = make_recommendation(ChartType::Bar, "city", Some("revenue"), None);
    assert_eq!(table_plan(&rec, &headers, ChartType::Bar, None, 100), TablePlan::Aggregated { x_idx: 0, y_idx: 1 });
    assert_eq!(table_plan(&rec, &headers, ChartType::Line, Some(7), 100), TablePlan::AllColumns { limit: 7 });
    let missing = make_recommendation(ChartType::Bar, "city", Some("profit"), None);
    assert_eq!(table_plan(&missing, &headers, ChartType::Bar, None, 100), TablePlan::AllColumns { limit: 100 });
}

#[test]
fn non_bar_limits_warn() {
    assert_eq!(
        non_bar_warning(ChartType::Line, Some(5), None, 100),
        Some(s("warning: --top/--tail has no effect on Line tables (only applies to bar charts); showing first 100 rows"))
    );
    assert_eq!(
        non_bar_warning(ChartType::Scatter, None, Some(SortOrder::Desc), 100),
        Some(s("warning: --sort has no effect on Scatter tables (only applies to bar charts)"))
    );
    assert_eq!(non_bar_warning(ChartType::Bar, Some(5), Some(SortOrder::Asc), 100), None);
    assert_eq!(non_bar_warning(ChartType::Line, None, None, 100), None);
}

#[test]
fn rows_notice_only_when_cut() {
    assert_eq!(
        rows_notice(100, 250),
        Some(s("info: showing 100/250 rows (use --top N, --sample N, or -o json for full data)"))
    );
    assert_eq!(rows_notice(3, 3), None);
}

#[test]
fn two_column_tables_are_exact() {
    let labels = strings(&["Tokyo", "Osaka"]);
    let values = strings(&["4.2k", "3.3k"]);
    let t = two_col_table_lines("city", "revenue", &labels, &values);
    assert_eq!(
        t,
        strings(&[
            "city        revenue",
            "-----  ------------",
            "Tokyo          4.2k",
            "Osaka          3.3k",
        ])
    );
    let m = two_col_markdown_lines("city", "sum|x", &labels, &values);
    assert_eq!(m, strings(&["| city | sum\\|x |", "|---|---|", "| Tokyo | 4.2k |", "| Osaka | 3.3k |"]));
}

#[test]
fn chart_choices_fill_in_defaults() {
    let mut block = ChartBlock {
        source: s("data.csv"),
        chart_type: None,
        x_col: None,
        y_col: None,
        color_col: None,
        title: None,
        filter: vec![],
        sort: None,
        agg: None,
        top: None,
        bins: None,
        height: None,
        diff: None,
    };
    let c = chart_choices(ChartType::Heatmap, &block, "day", "hour", false);
    assert_eq!(c.title, Some(s("day × hour")));
    assert_eq!(c.agg, AggFunction::Sum);
    assert_eq!(c.sort, None);
    let c = chart_choices(ChartType::Histogram, &block, "day", "hour", false);
    assert_eq!(c.value_label, "day");
    assert_eq!(c.title, None);
    let c = chart_choices(ChartType::Histogram, &block, "day", "hour", true);
    assert_eq!(c.value_label, "hour");
    block.top = Some(3);
    block.title = Some(s("Top"));
    let c = chart_choices(ChartType::Bar, &block, "city", "revenue", false);
    assert_eq!(c.sort, Some(SortOrder::Desc));
    assert_eq!(c.top, Some(3));
    assert_eq!(c.title, Some(s("Top")));
    block.sort = Some(SortOrder::Asc);
    block.agg = Some(AggFunction::Mean);
    let c = chart_choices(ChartType::Bar, &block, "city", "revenue", false);
    assert_eq!(c.sort, Some(SortOrder::Asc));
    assert_eq!(c.agg, AggFunction::Mean);
}

#[test]
fn rule_splits_a_deck_into_its_parts() {
    let a = "# One\n\nfirst\n";
    let b = "second\n\n# Three\n";
    let whole = parse_presentation(&format!("{a}---\n{b}"));
    let mut parts = parse_presentation(a).slides;
    parts.extend(parse_presentation(b).slides);
    assert_eq!(whole.slides, parts);
    assert_eq!(whole.slides.len(), 3);
}
