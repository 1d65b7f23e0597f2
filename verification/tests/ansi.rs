use vz::oneshot::ansi::{
    ansi_line, color_to_ansi, default_style, style_to_ansi, CellStyle, StyledCell, TermColor, BOLD,
    ITALIC,
};

fn cell(c: &str, style: CellStyle) -> StyledCell {
    StyledCell { symbol: c.to_string(), style }
}

fn fg(color: TermColor) -> CellStyle {
    CellStyle { fg: Some(color), ..default_style() }
}

#[test]
fn test_print_buffer_basic() {
    let mut row: Vec<StyledCell> = (0..10).map(|_| cell(" ", default_style())).collect();
    row[0] = cell("H", default_style());
    row[1] = cell("i", default_style());
    let text = ansi_line(&row, true);
    assert!(text.contains("Hi"));
    assert_eq!(text, "Hi");
}

#[test]
fn test_print_buffer_with_color() {
    let mut row: Vec<StyledCell> = (0..5).map(|_| cell(" ", default_style())).collect();
    row[0] = cell("R", fg(TermColor::Red));
    let text = ansi_line(&row, true);
    assert!(text.contains("\x1b[31m"));
    assert!(text.contains("R"));
    assert!(text.contains("\x1b[0m"));
    assert_eq!(text, "\x1b[31mR\x1b[0m");
}

#[test]
fn test_style_to_ansi_empty() {
    assert_eq!(style_to_ansi(default_style()), "");
}

#[test]
fn test_style_to_ansi_fg_color() {
    assert_eq!(style_to_ansi(fg(TermColor::Cyan)), "\x1b[36m");
}

#[test]
fn test_style_to_ansi_bold() {
    let style = CellStyle { add_modifier: BOLD, ..default_style() };
    assert_eq!(style_to_ansi(style), "\x1b[1m");
}

#[test]
fn test_style_to_ansi_combined() {
    let style = CellStyle { fg: Some(TermColor::Green), add_modifier: BOLD, ..default_style() };
    let ansi = style_to_ansi(style);
    assert!(ansi.contains("32"));
    assert!(ansi.contains("1"));
    assert_eq!(ansi, "\x1b[32;1m");
}

#[test]
fn test_color_to_ansi_fg() {
    assert_eq!(color_to_ansi(TermColor::Red, false), Some("31".to_string()));
    assert_eq!(color_to_ansi(TermColor::Green, false), Some("32".to_string()));
}

#[test]
fn test_color_to_ansi_bg() {
    assert_eq!(color_to_ansi(TermColor::Red, true), Some("41".to_string()));
    assert_eq!(color_to_ansi(TermColor::Cyan, true), Some("46".to_string()));
}

#[test]
fn test_color_to_ansi_indexed() {
    assert_eq!(color_to_ansi(TermColor::Indexed(42), false), Some("38;5;42".to_string()));
}

#[test]
fn test_color_to_ansi_rgb() {
    assert_eq!(color_to_ansi(TermColor::Rgb(255, 128, 0), false), Some("38;2;255;128;0".to_string()));
}

#[test]
fn ansi_reset_color_has_no_code() {
    assert_eq!(color_to_ansi(TermColor::Reset, true), None);
    assert_eq!(color_to_ansi(TermColor::DarkGray, true), Some("100".to_string()));
    assert_eq!(color_to_ansi(TermColor::Rgb(1, 2, 3), true), Some("48;2;1;2;3".to_string()));
}

#[test]
fn ansi_line_style_changes_and_plain_output() {
    let italic = CellStyle { add_modifier: ITALIC, ..default_style() };
    let row = vec![
        cell("a", fg(TermColor::Blue)),
        cell("b", italic),
        cell("c", default_style()),
        cell(" ", default_style()),
    ];
    assert_eq!(ansi_line(&row, true), "\x1b[34ma\x1b[0m\x1b[3mb\x1b[0mc");
    assert_eq!(ansi_line(&row, false), "abc");
}
