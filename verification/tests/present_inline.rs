use vz::present::inline::{parse_inline_spans, SpanStyle};

#[test]
fn test_inline_bold_parsed() {
    let spans = parse_inline_spans("Hello **world** end");
    assert_eq!(spans.len(), 3);
    assert_eq!(spans[0].text, "Hello ");
    assert_eq!(spans[1].text, "world");
    assert_eq!(spans[1].style, SpanStyle::Bold);
    assert_eq!(spans[2].text, " end");
}

#[test]
fn test_inline_italic_parsed() {
    let spans = parse_inline_spans("Hello *world* end");
    assert_eq!(spans.len(), 3);
    assert_eq!(spans[0].text, "Hello ");
    assert_eq!(spans[1].text, "world");
    assert_eq!(spans[1].style, SpanStyle::Italic);
    assert_eq!(spans[2].text, " end");
}

#[test]
fn test_inline_no_formatting() {
    let spans = parse_inline_spans("plain text");
    assert_eq!(spans.len(), 1);
    assert_eq!(spans[0].text, "plain text");
}

#[test]
fn test_inline_bold_and_italic_mixed() {
    let spans = parse_inline_spans("**bold** then *italic*");
    assert_eq!(spans.len(), 3);
    assert_eq!(spans[0].text, "bold");
    assert_eq!(spans[0].style, SpanStyle::Bold);
    assert_eq!(spans[1].text, " then ");
    assert_eq!(spans[2].text, "italic");
    assert_eq!(spans[2].style, SpanStyle::Italic);
}

#[test]
fn inline_code_span() {
    let spans = parse_inline_spans("run `vz data.csv` now");
    assert_eq!(spans.len(), 3);
    assert_eq!(spans[1].text, "vz data.csv");
    assert_eq!(spans[1].style, SpanStyle::Code);
    assert_eq!(spans[2].style, SpanStyle::Plain);
}

#[test]
fn inline_unclosed_marker_is_plain() {
    let spans = parse_inline_spans("a * b");
    assert_eq!(spans.len(), 1);
    assert_eq!(spans[0].text, "a * b");
    assert_eq!(spans[0].style, SpanStyle::Plain);
}

#[test]
fn inline_empty_text_is_one_plain_span() {
    let spans = parse_inline_spans("");
    assert_eq!(spans.len(), 1);
    assert_eq!(spans[0].text, "");
}

#[test]
fn inline_bold_wins_over_earlier_italic() {
    // The first closed `**` pair is taken before any single `*`.
    let spans = parse_inline_spans("*a* **b**");
    assert_eq!(spans[0].text, "*a* ");
    assert_eq!(spans[0].style, SpanStyle::Plain);
    assert_eq!(spans[1].text, "b");
    assert_eq!(spans[1].style, SpanStyle::Bold);
}
