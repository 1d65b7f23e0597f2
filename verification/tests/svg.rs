use vz::oneshot::ansi::{CellStyle, StyledCell, TermColor, BOLD, ITALIC};
use vz::output::svg::{buffer_to_svg, color_to_hex, write_tspan};

fn blank_style() -> CellStyle {
    CellStyle {
        fg: Some(TermColor::Reset),
        bg: Some(TermColor::Reset),
        underline_color: Some(TermColor::Reset),
        add_modifier: 0,
        sub_modifier: 0,
    }
}

fn blank_grid(w: usize, h: usize) -> Vec<Vec<StyledCell>> {
    (0..h)
        .map(|_| (0..w).map(|_| StyledCell { symbol: " ".to_string(), style: blank_style() }).collect())
        .collect()
}

#[test]
fn svg_test_buffer_to_svg_basic() {
    let mut buf = blank_grid(5, 2);
    buf[0][0].symbol = "H".to_string();
    buf[0][1].symbol = "i".to_string();
    let svg = buffer_to_svg(&buf, "#1e1e1e");
    assert!(svg.contains("<svg"));
    assert!(svg.contains("</svg>"));
    assert!(svg.contains("Hi"));
}

#[test]
fn svg_test_buffer_to_svg_colored() {
    let mut buf = blank_grid(3, 1);
    buf[0][0].symbol = "R".to_string();
    buf[0][0].style.fg = Some(TermColor::Red);
    let svg = buffer_to_svg(&buf, "#1e1e1e");
    assert!(svg.contains("#f44747"), "Red color expected");
    assert!(svg.contains("R"));
}

#[test]
fn test_color_to_hex_rgb() {
    assert_eq!(color_to_hex(TermColor::Rgb(255, 128, 0)), "#ff8000");
    assert_eq!(color_to_hex(TermColor::Rgb(0, 0, 0)), "#000000");
    assert_eq!(color_to_hex(TermColor::Rgb(10, 200, 30)), "#0ac81e");
}

#[test]
fn test_buffer_to_svg_with_background() {
    let mut buf = blank_grid(3, 1);
    buf[0][0].symbol = "X".to_string();
    buf[0][0].style.fg = Some(TermColor::Black);
    buf[0][0].style.bg = Some(TermColor::Rgb(255, 0, 0));
    buf[0][1].symbol = "Y".to_string();
    buf[0][1].style.fg = Some(TermColor::Black);
    buf[0][1].style.bg = Some(TermColor::Rgb(255, 0, 0));
    let svg = buffer_to_svg(&buf, "#1e1e1e");
    assert!(svg.contains("#ff0000"), "Expected Rgb bg rect in SVG");
    assert!(svg.contains("<rect"), "Expected background rect element");
}

#[test]
fn test_write_tspan_bold_italic() {
    let mut svg = String::new();
    let style = CellStyle {
        fg: Some(TermColor::Cyan),
        bg: None,
        underline_color: None,
        add_modifier: BOLD | ITALIC,
        sub_modifier: 0,
    };
    write_tspan(&mut svg, 0, "Title", style);
    assert!(svg.contains(r#"font-weight="bold""#), "Expected bold attribute, got: {}", svg);
    assert!(svg.contains(r#"font-style="italic""#), "Expected italic attribute, got: {}", svg);
    assert!(svg.contains("Title"));
}

#[test]
fn test_write_tspan_no_modifiers() {
    let mut svg = String::new();
    let style = CellStyle {
        fg: Some(TermColor::White),
        bg: None,
        underline_color: None,
        add_modifier: 0,
        sub_modifier: 0,
    };
    write_tspan(&mut svg, 8, "Plain", style);
    assert!(!svg.contains("font-weight"));
    assert!(!svg.contains("font-style"));
    assert!(svg.contains("Plain"));
}

#[test]
fn svg_document_is_exact_for_a_small_grid() {
    let mut buf = blank_grid(3, 2);
    buf[0][0].symbol = "a".to_string();
    buf[0][0].style.bg = Some(TermColor::Blue);
    buf[0][1].symbol = "<".to_string();
    buf[0][1].style.bg = Some(TermColor::Blue);
    buf[1][2].symbol = "z".to_string();
    buf[1][2].style.fg = Some(TermColor::Green);
    let svg = buffer_to_svg(&buf, "#fff");
    let expected = [
        "<svg xmlns=\"http://www.w3.org/2000/svg\" viewBox=\"0 0 24 32\" width=\"24\" height=\"32\">\n",
        "<rect width=\"100%\" height=\"100%\" fill=\"#fff\"/>\n",
        "<style>text { font-family: 'JetBrains Mono', 'Fira Code', 'Cascadia Code', monospace; font-size: 14px; white-space: pre; }</style>\n",
        "<rect x=\"0\" y=\"0\" width=\"16\" height=\"16\" fill=\"#569cd6\"/>\n",
        "<text y=\"13\"><tspan x=\"0\" fill=\"#cccccc\">a&lt;</tspan></text>\n",
        "<text y=\"29\"><tspan x=\"0\" fill=\"#cccccc\">  </tspan><tspan x=\"16\" fill=\"#6a9955\">z</tspan></text>\n",
        "</svg>\n",
    ]
    .join("");
    assert_eq!(svg, expected);
}

#[test]
fn svg_of_an_empty_grid_has_only_the_frame() {
    let svg = buffer_to_svg(&[], "#000");
    assert!(svg.starts_with("<svg xmlns=\"http://www.w3.org/2000/svg\" viewBox=\"0 0 0 0\""));
    assert!(svg.ends_with("</style>\n</svg>\n"));
}

#[test]
fn svg_has_one_text_row_per_grid_row() {
    let buf = blank_grid(4, 3);
    let svg = buffer_to_svg(&buf, "#1e1e1e");
    assert!(svg.starts_with("<svg xmlns=\"http://www.w3.org/2000/svg\" viewBox=\"0 0 32 48\""));
    assert!(svg.contains("<rect width=\"100%\" height=\"100%\" fill=\"#1e1e1e\"/>"));
    assert_eq!(svg.matches("<text y=").count(), 3);
    assert!(svg.ends_with("</svg>\n"));
}
