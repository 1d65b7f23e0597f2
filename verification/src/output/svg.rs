//! SVG export: a grid of styled terminal cells as an SVG text grid.
//!
//! Each cell is 8 units wide and 16 high; row `y` is drawn as background
//! rectangles for runs of one background colour, then one `<text>` element
//! whose `<tspan>`s are the runs of one style.

use vstd::prelude::*;
use crate::output::html::{escape_spec, html_escape};
use crate::oneshot::ansi::{TermColor, CellStyle, StyledCell, BOLD, ITALIC, plain_style, default_style, cells_view};
use crate::text::{
    dec_seq, digit_char, usize_chars, push_chars, push_char, append_str, chars_of, trim_end_seq,
    trim_end_index, copy_range, string_of, is_digit, has_prefix, has_suffix, has_substring,
    occurrences, lemma_occurrences_concat, lemma_occurrences_absent, lemma_occurrences_lead,
};
use crate::output::html::law_escaped_text_has_no_markup;

verus! {

/// Escapes text for XML content and attribute values.
pub fn xml_escape(s: &str) -> (r: String)
    ensures r@ == escape_spec(s@),
{
    html_escape(s)
}

/// A lower-case hexadecimal digit.
pub open spec fn hex_digit(d: int) -> char {
    if d < 10 {
        digit_char(d)
    } else if d == 10 {
        'a'
    } else if d == 11 {
        'b'
    } else if d == 12 {
        'c'
    } else if d == 13 {
        'd'
    } else if d == 14 {
        'e'
    } else {
        'f'
    }
}

/// A byte as two lower-case hexadecimal digits (`{:02x}`).
pub open spec fn hex2(n: u8) -> Seq<char> {
    seq![hex_digit(n as int / 16), hex_digit(n as int % 16)]
}

/// The CSS colour of a terminal colour; the default colours are light grey.
pub open spec fn color_hex_spec(color: TermColor) -> Seq<char> {
    match color {
        TermColor::Black => "#000000"@,
        TermColor::Red => "#f44747"@,
        TermColor::Green => "#6a9955"@,
        TermColor::Yellow => "#dcdcaa"@,
        TermColor::Blue => "#569cd6"@,
        TermColor::Magenta => "#c586c0"@,
        TermColor::Cyan => "#4ec9b0"@,
        TermColor::Gray => "#cccccc"@,
        TermColor::DarkGray => "#808080"@,
        TermColor::LightRed => "#f14c4c"@,
        TermColor::LightGreen => "#b5cea8"@,
        TermColor::LightYellow => "#ffffcc"@,
        TermColor::LightBlue => "#9cdcfe"@,
        TermColor::LightMagenta => "#d7a0d7"@,
        TermColor::LightCyan => "#b5e8e0"@,
        TermColor::White => "#ffffff"@,
        TermColor::Rgb(r, g, b) => seq!['#'] + hex2(r) + hex2(g) + hex2(b),
        _ => "#cccccc"@,
    }
}

fn hex_digit_char(d: u8) -> (c: char)
    requires d < 16,
    ensures c == hex_digit(d as int),
{
    if d == 0 { '0' } else if d == 1 { '1' } else if d == 2 { '2' } else if d == 3 { '3' }
    else if d == 4 { '4' } else if d == 5 { '5' } else if d == 6 { '6' } else if d == 7 { '7' }
    else if d == 8 { '8' } else if d == 9 { '9' } else if d == 10 { 'a' } else if d == 11 { 'b' }
    else if d == 12 { 'c' } else if d == 13 { 'd' } else if d == 14 { 'e' } else { 'f' }
}

fn push_hex2(s: &mut String, n: u8)
    ensures final(s)@ == old(s)@ + hex2(n),
{
    push_char(s, hex_digit_char(n / 16));
    push_char(s, hex_digit_char(n % 16));
    assert(s@ =~= old(s)@ + hex2(n));
}

/// The CSS colour of a terminal colour.
pub fn color_to_hex(color: TermColor) -> (r: String)
    ensures r@ == color_hex_spec(color),
{
    match color {
        TermColor::Black => "#000000".to_owned(),
        TermColor::Red => "#f44747".to_owned(),
        TermColor::Green => "#6a9955".to_owned(),
        TermColor::Yellow => "#dcdcaa".to_owned(),
        TermColor::Blue => "#569cd6".to_owned(),
        TermColor::Magenta => "#c586c0".to_owned(),
        TermColor::Cyan => "#4ec9b0".to_owned(),
        TermColor::Gray => "#cccccc".to_owned(),
        TermColor::DarkGray => "#808080".to_owned(),
        TermColor::LightRed => "#f14c4c".to_owned(),
        TermColor::LightGreen => "#b5cea8".to_owned(),
        TermColor::LightYellow => "#ffffcc".to_owned(),
        TermColor::LightBlue => "#9cdcfe".to_owned(),
        TermColor::LightMagenta => "#d7a0d7".to_owned(),
        TermColor::LightCyan => "#b5e8e0".to_owned(),
        TermColor::White => "#ffffff".to_owned(),
        TermColor::Rgb(r, g, b) => {
            let mut s = String::new();
            push_char(&mut s, '#');
            push_hex2(&mut s, r);
            push_hex2(&mut s, g);
            push_hex2(&mut s, b);
            assert(s@ =~= seq!['#'] + hex2(r) + hex2(g) + hex2(b));
            s
        },
        _ => "#cccccc".to_owned(),
    }
}

fn push_num(s: &mut String, n: usize)
    ensures final(s)@ == old(s)@ + dec_seq(n as nat),
{
    let d = usize_chars(n);
    push_chars(s, d.as_slice());
}

/// The foreground colour a style draws with (grey when unset).
pub open spec fn fg_or_gray(style: CellStyle) -> TermColor {
    match style.fg {
        Some(c) => c,
        None => TermColor::Gray,
    }
}

/// The font attributes of a style: bold, then italic.
pub open spec fn font_attrs(style: CellStyle) -> Seq<char> {
    (if style.add_modifier & BOLD != 0 { " font-weight=\"bold\""@ } else { Seq::empty() })
        + (if style.add_modifier & ITALIC != 0 { " font-style=\"italic\""@ } else { Seq::empty() })
}

/// A `<tspan>` at horizontal position `x` drawing `text` in `style`: the
/// foreground colour (grey when unset), bold and italic.
pub open spec fn tspan_spec(x: nat, text: Seq<char>, style: CellStyle) -> Seq<char> {
    "<tspan x=\""@ + dec_seq(x) + "\" fill=\""@ + color_hex_spec(fg_or_gray(style)) + "\""@
        + font_attrs(style) + ">"@ + escape_spec(text) + "</tspan>"@
}

fn write_font_attrs(svg: &mut String, style: CellStyle)
    ensures final(svg)@ == old(svg)@ + font_attrs(style),
{
    let ghost s0 = svg@;
    if style.add_modifier & BOLD != 0 {
        append_str(svg, " font-weight=\"bold\"");
    }
    if style.add_modifier & ITALIC != 0 {
        append_str(svg, " font-style=\"italic\"");
    }
    assert(svg@ =~= s0 + font_attrs(style));
}

/// Appends the `<tspan>` that draws `text` in `style` at position `x`.
pub fn write_tspan(svg: &mut String, x: usize, text: &str, style: CellStyle)
    ensures final(svg)@ == old(svg)@ + tspan_spec(x as nat, text@, style),
{
    let fg = match style.fg {
        Some(c) => c,
        None => TermColor::Gray,
    };
    let color = color_to_hex(fg);
    let escaped = html_escape(text);
    let mut t = String::new();
    append_str(&mut t, "<tspan x=\"");
    push_num(&mut t, x);
    append_str(&mut t, "\" fill=\"");
    append_str(&mut t, color.as_str());
    append_str(&mut t, "\"");
    let ghost t1 = t@;
    assert(t1 =~= "<tspan x=\""@ + dec_seq(x as nat) + "\" fill=\""@ + color_hex_spec(fg_or_gray(style)) + "\""@);
    write_font_attrs(&mut t, style);
    append_str(&mut t, ">");
    append_str(&mut t, escaped.as_str());
    append_str(&mut t, "</tspan>");
    assert(t@ =~= tspan_spec(x as nat, text@, style));
    append_str(svg, t.as_str());
}

/// A background rectangle over cells `x0..x1` of row `y`.
pub open spec fn rect_spec(x0: nat, x1: nat, y: nat, color: TermColor) -> Seq<char> {
    "<rect x=\""@ + dec_seq(x0 * 8) + "\" y=\""@ + dec_seq(y * 16) + "\" width=\""@
        + dec_seq(((x1 - x0) * 8) as nat) + "\" height=\"16\" fill=\""@ + color_hex_spec(color)
        + "\"/>\n"@
}

/// The background colour a cell paints, if any.
pub open spec fn live_bg(bg: Option<TermColor>) -> Option<TermColor> {
    match bg {
        Some(c) => if c == TermColor::Reset { None } else { Some(c) },
        None => None,
    }
}

/// A run of one background colour that starts at a cell, if one is open.
pub open spec fn start_run(x: nat, bg: Option<TermColor>) -> Option<(nat, TermColor)> {
    match bg {
        Some(c) => Some((x, c)),
        None => None,
    }
}

/// The rectangles of the finished background runs of a row, and the run
/// still open after its last cell.
pub open spec fn bg_scan(row: Seq<(Seq<char>, CellStyle)>, y: nat) -> (Seq<char>, Option<(nat, TermColor)>)
    decreases row.len(),
{
    if row.len() == 0 {
        (Seq::empty(), None)
    } else {
        let (out, open) = bg_scan(row.drop_last(), y);
        let x = (row.len() - 1) as nat;
        let bg = live_bg(row.last().1.bg);
        match open {
            None => (out, start_run(x, bg)),
            Some((s, p)) => if bg == Some(p) {
                (out, open)
            } else {
                (out + rect_spec(s, x, y, p), start_run(x, bg))
            },
        }
    }
}

/// The background rectangles of row `y`.
pub open spec fn bg_rects(row: Seq<(Seq<char>, CellStyle)>, y: nat) -> Seq<char> {
    let (out, open) = bg_scan(row, y);
    match open {
        Some((s, p)) => out + rect_spec(s, row.len(), y, p),
        None => out,
    }
}

fn live_bg_of(bg: Option<TermColor>) -> (r: Option<TermColor>)
    ensures r == live_bg(bg),
{
    match bg {
        Some(c) => if c == TermColor::Reset { None } else { Some(c) },
        None => None,
    }
}

fn write_rect(svg: &mut String, x0: usize, x1: usize, y: usize, color: TermColor)
    requires x0 <= x1 <= 65535, y <= 65535,
    ensures final(svg)@ == old(svg)@ + rect_spec(x0 as nat, x1 as nat, y as nat, color),
{
    let fill = color_to_hex(color);
    append_str(svg, "<rect x=\"");
    push_num(svg, x0 * 8);
    append_str(svg, "\" y=\"");
    push_num(svg, y * 16);
    append_str(svg, "\" width=\"");
    push_num(svg, (x1 - x0) * 8);
    append_str(svg, "\" height=\"16\" fill=\"");
    append_str(svg, fill.as_str());
    append_str(svg, "\"/>\n");
    assert(svg@ =~= old(svg)@ + rect_spec(x0 as nat, x1 as nat, y as nat, color));
}

/// Appends the background rectangles of row `y`.
fn write_bg_rects(svg: &mut String, row: &[StyledCell], y: usize)
    requires row@.len() <= 65535, y <= 65535,
    ensures final(svg)@ == old(svg)@ + bg_rects(cells_view(row@), y as nat),
{
    let ghost cv = cells_view(row@);
    let mut open: Option<(usize, TermColor)> = None;
    let mut i: usize = 0;
    assert(cv.take(0) =~= Seq::<(Seq<char>, CellStyle)>::empty());
    while i < row.len()
        invariant
            i <= row@.len() <= 65535,
            y <= 65535,
            cv == cells_view(row@),
            svg@ == old(svg)@ + bg_scan(cv.take(i as int), y as nat).0,
            match open {
                Some((s, p)) => s < i && bg_scan(cv.take(i as int), y as nat).1 == Some((s as nat, p)),
                None => bg_scan(cv.take(i as int), y as nat).1 is None,
            },
        decreases row@.len() - i,
    {
        assert(cv.take(i + 1).drop_last() =~= cv.take(i as int));
        assert(cv.take(i + 1).last() == (row@[i as int].symbol@, row@[i as int].style));
        let bg = live_bg_of(row[i].style.bg);
        match open {
            None => {
                open = match bg {
                    Some(c) => Some((i, c)),
                    None => None,
                };
            },
            Some((s, p)) => {
                let same = match bg {
                    Some(c) => c == p,
                    None => false,
                };
                if !same {
                    write_rect(svg, s, i, y, p);
                    assert(svg@ =~= old(svg)@ + (bg_scan(cv.take(i as int), y as nat).0
                        + rect_spec(s as nat, i as nat, y as nat, p)));
                    open = match bg {
                        Some(c) => Some((i, c)),
                        None => None,
                    };
                }
            },
        }
        i = i + 1;
    }
    assert(cv.take(i as int) =~= cv);
    match open {
        Some((s, p)) => {
            write_rect(svg, s, row.len(), y, p);
            assert(svg@ =~= old(svg)@ + (bg_scan(cv, y as nat).0
                + rect_spec(s as nat, row@.len() as nat, y as nat, p)));
        },
        None => {},
    }
}


/// The `<tspan>`s finished while reading a row, and the run still open: its
/// style, text and first cell. A run ends where the style changes.
pub open spec fn span_scan(row: Seq<(Seq<char>, CellStyle)>) -> (Seq<char>, CellStyle, Seq<char>, nat)
    decreases row.len(),
{
    if row.len() == 0 {
        (Seq::empty(), plain_style(), Seq::empty(), 0)
    } else {
        let (out, cur, text, sx) = span_scan(row.drop_last());
        let x = (row.len() - 1) as nat;
        let (sym, style) = row.last();
        if text.len() == 0 {
            (out, style, sym, x)
        } else if style != cur {
            (out + tspan_spec(sx * 8, text, cur), style, sym, x)
        } else {
            (out, cur, text + sym, sx)
        }
    }
}

/// The `<text>` element of row `y`: its runs, the last one without trailing
/// whitespace and left out when nothing else remains of it.
pub open spec fn row_text(row: Seq<(Seq<char>, CellStyle)>, y: nat) -> Seq<char> {
    let (out, cur, text, sx) = span_scan(row);
    let tail = trim_end_seq(text);
    "<text y=\""@ + dec_seq(((y + 1) * 16 - 3) as nat) + "\">"@ + out
        + (if tail.len() > 0 { tspan_spec(sx * 8, tail, cur) } else { Seq::empty() })
        + "</text>\n"@
}

/// Appends the `<text>` element of row `y`.
fn write_row_text(svg: &mut String, row: &[StyledCell], y: usize)
    requires row@.len() <= 65535, y <= 65535,
    ensures final(svg)@ == old(svg)@ + row_text(cells_view(row@), y as nat),
{
    let ghost cv = cells_view(row@);
    let mut body = String::new();
    let mut cur = default_style();
    let mut text = String::new();
    let mut sx: usize = 0;
    let mut i: usize = 0;
    assert(cv.take(0) =~= Seq::<(Seq<char>, CellStyle)>::empty());
    while i < row.len()
        invariant
            i <= row@.len() <= 65535,
            cv == cells_view(row@),
            sx <= i,
            (body@, cur, text@, sx as nat) == span_scan(cv.take(i as int)),
        decreases row@.len() - i,
    {
        assert(cv.take(i + 1).drop_last() =~= cv.take(i as int));
        assert(cv.take(i + 1).last() == (row@[i as int].symbol@, row@[i as int].style));
        let style = row[i].style;
        if text.as_str().is_empty() {
            cur = style;
            sx = i;
            text = String::new();
            append_str(&mut text, row[i].symbol.as_str());
            assert(text@ =~= row@[i as int].symbol@);
        } else if style != cur {
            write_tspan(&mut body, sx * 8, text.as_str(), cur);
            cur = style;
            sx = i;
            text = String::new();
            append_str(&mut text, row[i].symbol.as_str());
            assert(text@ =~= row@[i as int].symbol@);
        } else {
            append_str(&mut text, row[i].symbol.as_str());
        }
        i = i + 1;
    }
    assert(cv.take(i as int) =~= cv);
    let cs = chars_of(text.as_str());
    let end = trim_end_index(cs.as_slice(), 0);
    assert(cs@.subrange(0, cs@.len() as int) =~= cs@);
    let tail = string_of(copy_range(cs.as_slice(), 0, end).as_slice());
    let mut t = String::new();
    append_str(&mut t, "<text y=\"");
    push_num(&mut t, (y + 1) * 16 - 3);
    append_str(&mut t, "\">");
    append_str(&mut t, body.as_str());
    let ghost t1 = t@;
    if end > 0 {
        write_tspan(&mut t, sx * 8, tail.as_str(), cur);
    }
    let ghost t2 = t@;
    assert(t2 =~= t1 + (if trim_end_seq(text@).len() > 0 { tspan_spec((sx * 8) as nat, trim_end_seq(text@), cur) } else { Seq::empty() }));
    append_str(&mut t, "</text>\n");
    assert(t@ =~= row_text(cv, y as nat));
    append_str(svg, t.as_str());
}

/// The rows of a cell grid, each as its cells' text and style.
pub open spec fn grid_view(rows: Seq<Vec<StyledCell>>) -> Seq<Seq<(Seq<char>, CellStyle)>> {
    rows.map_values(|r: Vec<StyledCell>| cells_view(r@))
}

/// The rows of the grid, one after another: each row's background
/// rectangles, then its text.
pub open spec fn rows_svg(rows: Seq<Seq<(Seq<char>, CellStyle)>>) -> Seq<char>
    decreases rows.len(),
{
    if rows.len() == 0 {
        Seq::empty()
    } else {
        let y = (rows.len() - 1) as nat;
        rows_svg(rows.drop_last()) + bg_rects(rows.last(), y) + row_text(rows.last(), y)
    }
}

/// The opening of the document: the `<svg>` element sized to the grid
/// (`w` cells by `h` rows), the background, and the font style.
pub open spec fn svg_head(w: nat, h: nat, bg_color: Seq<char>) -> Seq<char> {
    "<svg xmlns=\"http://www.w3.org/2000/svg\" viewBox=\"0 0 "@ + dec_seq(w * 8) + " "@ + dec_seq(h * 16)
        + "\" width=\""@ + dec_seq(w * 8) + "\" height=\""@ + dec_seq(h * 16) + "\">\n"@
        + "<rect width=\"100%\" height=\"100%\" fill=\""@ + bg_color + "\"/>\n"@
        + "<style>text { font-family: 'JetBrains Mono', 'Fira Code', 'Cascadia Code', monospace; font-size: 14px; white-space: pre; }</style>\n"@
}

/// The SVG document of a cell grid on background `bg_color`; the grid is as
/// wide as its first row.
pub open spec fn cells_svg_spec(rows: Seq<Seq<(Seq<char>, CellStyle)>>, bg_color: Seq<char>) -> Seq<char> {
    let w: nat = if rows.len() > 0 { rows[0].len() } else { 0 };
    svg_head(w, rows.len(), bg_color) + rows_svg(rows) + "</svg>\n"@
}

/// The SVG document of a drawn buffer, given as its rows of cells (all of one
/// width, as a buffer's are), on background `bg_color`.
pub fn buffer_to_svg(cells: &[Vec<StyledCell>], bg_color: &str) -> (r: String)
    requires
        cells@.len() <= 65535,
        forall|i: int| 0 <= i < cells@.len() ==> #[trigger] cells@[i]@.len() <= 65535,
    ensures r@ == cells_svg_spec(grid_view(cells@), bg_color@),
{
    let ghost g = grid_view(cells@);
    let w: usize = if cells.len() > 0 { cells[0].len() } else { 0 };
    let h: usize = cells.len();
    let mut svg = String::new();
    append_str(&mut svg, "<svg xmlns=\"http://www.w3.org/2000/svg\" viewBox=\"0 0 ");
    push_num(&mut svg, w * 8);
    append_str(&mut svg, " ");
    push_num(&mut svg, h * 16);
    append_str(&mut svg, "\" width=\"");
    push_num(&mut svg, w * 8);
    append_str(&mut svg, "\" height=\"");
    push_num(&mut svg, h * 16);
    append_str(&mut svg, "\">\n");
    append_str(&mut svg, "<rect width=\"100%\" height=\"100%\" fill=\"");
    append_str(&mut svg, bg_color);
    append_str(&mut svg, "\"/>\n");
    append_str(&mut svg, "<style>text { font-family: 'JetBrains Mono', 'Fira Code', 'Cascadia Code', monospace; font-size: 14px; white-space: pre; }</style>\n");
    let ghost head = svg@;
    assert(head =~= svg_head(w as nat, h as nat, bg_color@));
    let mut y: usize = 0;
    assert(g.take(0) =~= Seq::<Seq<(Seq<char>, CellStyle)>>::empty());
    while y < cells.len()
        invariant
            y <= cells@.len() <= 65535,
            forall|i: int| 0 <= i < cells@.len() ==> #[trigger] cells@[i]@.len() <= 65535,
            g == grid_view(cells@),
            svg@ == head + rows_svg(g.take(y as int)),
        decreases cells@.len() - y,
    {
        assert(g.take(y + 1).drop_last() =~= g.take(y as int));
        assert(g.take(y + 1).last() == cells_view(cells@[y as int]@));
        write_bg_rects(&mut svg, cells[y].as_slice(), y);
        write_row_text(&mut svg, cells[y].as_slice(), y);
        assert(svg@ =~= head + rows_svg(g.take(y + 1)));
        y = y + 1;
    }
    assert(g.take(y as int) =~= g);
    append_str(&mut svg, "</svg>\n");
    assert(svg@ =~= cells_svg_spec(g, bg_color@));
    svg
}


// ---------------------------------------------------------------------------
// The shape of the document

/// The opening of a row's text element.
pub open spec fn text_tag() -> Seq<char> {
    "<text y="@
}

/// A character of [`text_tag`].
pub open spec fn in_tag(c: char) -> bool {
    c == '<' || c == 't' || c == 'e' || c == 'x' || c == ' ' || c == 'y' || c == '='
}

/// No occurrence of [`text_tag`] can straddle the joint of `a` and `b`.
pub open spec fn clean_joint(a: Seq<char>, b: Seq<char>) -> bool {
    a.len() == 0 || b.len() == 0 || !in_tag(a.last()) || !in_tag(b[0]) || b[0] == '<'
}

proof fn lemma_join(a: Seq<char>, b: Seq<char>)
    requires clean_joint(a, b),
    ensures occurrences(a + b, text_tag()) == occurrences(a, text_tag()) + occurrences(b, text_tag()),
{
    let p = text_tag();
    reveal_strlit("<text y=");
    assert(p.len() == 8);
    if a.len() > 0 && b.len() > 0 {
        if !in_tag(a.last()) {
            assert(!p.contains(a.last())) by {
                if p.contains(a.last()) {
                    let i = choose|i: int| 0 <= i < p.len() && p[i] == a.last();
                    assert(in_tag(p[i]));
                }
            }
        } else {
            assert(!p.drop_first().contains(b[0])) by {
                if p.drop_first().contains(b[0]) {
                    let i = choose|i: int| 0 <= i < p.drop_first().len() && p.drop_first()[i] == b[0];
                    assert(p.drop_first()[i] == p[i + 1]);
                    assert(in_tag(p[i + 1]) && p[i + 1] != '<');
                }
            }
        }
    }
    lemma_occurrences_concat(a, b, p);
}

/// Text with no `<` holds no text tag.
proof fn lemma_no_lt(s: Seq<char>)
    requires forall|i: int| 0 <= i < s.len() ==> s[i] != '<',
    ensures occurrences(s, text_tag()) == 0,
{
    reveal_strlit("<text y=");
    assert(text_tag()[0] == '<');
    lemma_occurrences_absent(s, text_tag());
}

/// Text whose only `<` is its first character holds the tag once when it
/// starts with it.
proof fn lemma_lead_lt(s: Seq<char>)
    requires
        s.len() > 0,
        forall|i: int| 1 <= i < s.len() ==> s[i] != '<',
    ensures
        occurrences(s, text_tag()) == (if has_prefix(s, text_tag()) { 1nat } else { 0nat }),
{
    reveal_strlit("<text y=");
    assert(text_tag()[0] == '<');
    lemma_occurrences_lead(s, text_tag());
}

proof fn lemma_dec_digits(n: nat)
    ensures
        dec_seq(n).len() > 0,
        forall|i: int| 0 <= i < dec_seq(n).len() ==> is_digit(#[trigger] dec_seq(n)[i]),
    decreases n,
{
    if n >= 10 {
        lemma_dec_digits(n / 10);
        let d = dec_seq(n / 10);
        assert forall|i: int| 0 <= i < dec_seq(n).len() implies is_digit(#[trigger] dec_seq(n)[i]) by {
            if i < d.len() {
                assert(dec_seq(n)[i] == d[i]);
            }
        }
    }
}

proof fn lemma_dec_clean(n: nat)
    ensures
        occurrences(dec_seq(n), text_tag()) == 0,
        dec_seq(n).len() > 0,
        !in_tag(dec_seq(n)[0]),
        !in_tag(dec_seq(n).last()),
{
    lemma_dec_digits(n);
    assert(is_digit(dec_seq(n)[0]));
    assert(is_digit(dec_seq(n)[dec_seq(n).len() - 1]));
    assert forall|i: int| 0 <= i < dec_seq(n).len() implies dec_seq(n)[i] != '<' by {
        assert(is_digit(dec_seq(n)[i]));
    }
    lemma_no_lt(dec_seq(n));
}

proof fn lemma_hex_clean(c: TermColor)
    ensures
        occurrences(color_hex_spec(c), text_tag()) == 0,
        color_hex_spec(c).len() > 0,
        color_hex_spec(c)[0] == '#',
{
    reveal_strlit("#000000");
    reveal_strlit("#f44747");
    reveal_strlit("#6a9955");
    reveal_strlit("#dcdcaa");
    reveal_strlit("#569cd6");
    reveal_strlit("#c586c0");
    reveal_strlit("#4ec9b0");
    reveal_strlit("#cccccc");
    reveal_strlit("#808080");
    reveal_strlit("#f14c4c");
    reveal_strlit("#b5cea8");
    reveal_strlit("#ffffcc");
    reveal_strlit("#9cdcfe");
    reveal_strlit("#d7a0d7");
    reveal_strlit("#b5e8e0");
    reveal_strlit("#ffffff");
    let h = color_hex_spec(c);
    assert forall|i: int| 0 <= i < h.len() implies h[i] != '<' by {
        match c {
            TermColor::Rgb(r, g, b) => {
                assert(h =~= seq!['#', hex_digit(r as int / 16), hex_digit(r as int % 16),
                    hex_digit(g as int / 16), hex_digit(g as int % 16),
                    hex_digit(b as int / 16), hex_digit(b as int % 16)]);
            },
            _ => {},
        }
    }
    match c {
        TermColor::Rgb(r, g, b) => {
            assert(h[0] == '#');
        },
        _ => {},
    }
    lemma_no_lt(h);
}

/// A literal with no `<`.
proof fn lemma_plain_lit(s: Seq<char>)
    requires forall|i: int| 0 <= i < s.len() ==> s[i] != '<',
    ensures occurrences(s, text_tag()) == 0,
{
    lemma_no_lt(s);
}

proof fn lemma_tspan_clean(x: nat, text: Seq<char>, style: CellStyle)
    ensures
        occurrences(tspan_spec(x, text, style), text_tag()) == 0,
        tspan_spec(x, text, style).len() > 0,
        tspan_spec(x, text, style)[0] == '<',
        tspan_spec(x, text, style).last() == '>',
{
    reveal_strlit("<tspan x=\"");
    reveal_strlit("\" fill=\"");
    reveal_strlit("\"");
    reveal_strlit(" font-weight=\"bold\"");
    reveal_strlit(" font-style=\"italic\"");
    reveal_strlit(">");
    reveal_strlit("</tspan>");
    let s0 = "<tspan x=\""@;
    let d = dec_seq(x);
    let s1 = "\" fill=\""@;
    let h = color_hex_spec(fg_or_gray(style));
    let s2 = "\""@;
    let f = font_attrs(style);
    let s3 = ">"@;
    let e = escape_spec(text);
    let s4 = "</tspan>"@;
    lemma_dec_clean(x);
    lemma_hex_clean(fg_or_gray(style));
    law_escaped_text_has_no_markup(text);
    assert forall|i: int| 0 <= i < e.len() implies e[i] != '<' by {
        assert(e[i] == escape_spec(text)[i]);
    }
    lemma_no_lt(e);
    lemma_lead_lt(s0);
    assert(!has_prefix(s0, text_tag())) by {
        reveal_strlit("<text y=");
        assert(s0.take(8)[2] != text_tag()[2]);
    }
    lemma_plain_lit(s1);
    lemma_plain_lit(s2);
    lemma_plain_lit(s3);
    lemma_plain_lit(f);
    lemma_lead_lt(s4);
    assert(!has_prefix(s4, text_tag())) by {
        reveal_strlit("<text y=");
        assert(s4.take(8)[1] != text_tag()[1]);
    }
    let a1 = s0 + d;
    lemma_join(s0, d);
    let a2 = a1 + s1;
    lemma_join(a1, s1);
    let a3 = a2 + h;
    lemma_join(a2, h);
    let a4 = a3 + s2;
    lemma_join(a3, s2);
    let a5 = a4 + f;
    assert(a4.last() == '"');
    lemma_join(a4, f);
    let a6 = a5 + s3;
    lemma_join(a5, s3);
    let a7 = a6 + e;
    assert(a6.last() == '>');
    lemma_join(a6, e);
    let a8 = a7 + s4;
    lemma_join(a7, s4);
    assert(a8 == tspan_spec(x, text, style));
    assert(a8[0] == s0[0]);
    assert(a8.last() == s4.last());
}


proof fn lemma_rect_clean(x0: nat, x1: nat, y: nat, color: TermColor)
    ensures
        occurrences(rect_spec(x0, x1, y, color), text_tag()) == 0,
        rect_spec(x0, x1, y, color).len() > 0,
        rect_spec(x0, x1, y, color).last() == '\n',
{
    reveal_strlit("<rect x=\"");
    reveal_strlit("\" y=\"");
    reveal_strlit("\" width=\"");
    reveal_strlit("\" height=\"16\" fill=\"");
    reveal_strlit("\"/>\n");
    reveal_strlit("<text y=");
    let s0 = "<rect x=\""@;
    let d0 = dec_seq(x0 * 8);
    let s1 = "\" y=\""@;
    let d1 = dec_seq(y * 16);
    let s2 = "\" width=\""@;
    let d2 = dec_seq(((x1 - x0) * 8) as nat);
    let s3 = "\" height=\"16\" fill=\""@;
    let h = color_hex_spec(color);
    let s4 = "\"/>\n"@;
    lemma_dec_clean(x0 * 8);
    lemma_dec_clean(y * 16);
    lemma_dec_clean(((x1 - x0) * 8) as nat);
    lemma_hex_clean(color);
    lemma_lead_lt(s0);
    assert(s0.take(8)[1] != text_tag()[1]);
    lemma_plain_lit(s1);
    lemma_plain_lit(s2);
    lemma_plain_lit(s3);
    lemma_plain_lit(s4);
    let a1 = s0 + d0;
    lemma_join(s0, d0);
    let a2 = a1 + s1;
    lemma_join(a1, s1);
    let a3 = a2 + d1;
    lemma_join(a2, d1);
    let a4 = a3 + s2;
    lemma_join(a3, s2);
    let a5 = a4 + d2;
    lemma_join(a4, d2);
    let a6 = a5 + s3;
    lemma_join(a5, s3);
    let a7 = a6 + h;
    lemma_join(a6, h);
    let a8 = a7 + s4;
    lemma_join(a7, s4);
    assert(a8 == rect_spec(x0, x1, y, color));
    assert(a8.last() == s4.last());
}

proof fn lemma_bg_scan_clean(row: Seq<(Seq<char>, CellStyle)>, y: nat)
    ensures
        occurrences(bg_scan(row, y).0, text_tag()) == 0,
        bg_scan(row, y).0.len() == 0 || bg_scan(row, y).0.last() == '\n',
    decreases row.len(),
{
    if row.len() == 0 {
        lemma_no_lt(Seq::<char>::empty());
    } else {
        lemma_bg_scan_clean(row.drop_last(), y);
        let (out, open) = bg_scan(row.drop_last(), y);
        match open {
            Some((s, p)) => {
                let r = rect_spec(s, (row.len() - 1) as nat, y, p);
                lemma_rect_clean(s, (row.len() - 1) as nat, y, p);
                lemma_join(out, r);
                assert((out + r).last() == r.last());
            },
            None => {},
        }
    }
}

proof fn lemma_bg_rects_clean(row: Seq<(Seq<char>, CellStyle)>, y: nat)
    ensures
        occurrences(bg_rects(row, y), text_tag()) == 0,
        bg_rects(row, y).len() == 0 || bg_rects(row, y).last() == '\n',
{
    lemma_bg_scan_clean(row, y);
    let (out, open) = bg_scan(row, y);
    match open {
        Some((s, p)) => {
            let r = rect_spec(s, row.len(), y, p);
            lemma_rect_clean(s, row.len(), y, p);
            lemma_join(out, r);
            assert((out + r).last() == r.last());
        },
        None => {},
    }
}

proof fn lemma_span_scan_clean(row: Seq<(Seq<char>, CellStyle)>)
    ensures
        occurrences(span_scan(row).0, text_tag()) == 0,
        span_scan(row).0.len() == 0 || span_scan(row).0.last() == '>',
    decreases row.len(),
{
    if row.len() == 0 {
        lemma_no_lt(Seq::<char>::empty());
    } else {
        lemma_span_scan_clean(row.drop_last());
        let (out, cur, text, sx) = span_scan(row.drop_last());
        let t = tspan_spec(sx * 8, text, cur);
        lemma_tspan_clean(sx * 8, text, cur);
        lemma_join(out, t);
        assert((out + t).last() == t.last());
    }
}

proof fn lemma_row_text_once(row: Seq<(Seq<char>, CellStyle)>, y: nat)
    ensures
        occurrences(row_text(row, y), text_tag()) == 1,
        row_text(row, y).len() > 0,
        row_text(row, y)[0] == '<',
        row_text(row, y).last() == '\n',
{
    reveal_strlit("<text y=\"");
    reveal_strlit("\">");
    reveal_strlit("</text>\n");
    reveal_strlit("<text y=");
    let (out, cur, text, sx) = span_scan(row);
    let tail = trim_end_seq(text);
    let s0 = "<text y=\""@;
    let d = dec_seq(((y + 1) * 16 - 3) as nat);
    let s1 = "\">"@;
    let tl = if tail.len() > 0 { tspan_spec(sx * 8, tail, cur) } else { Seq::empty() };
    let s2 = "</text>\n"@;
    lemma_lead_lt(s0);
    assert(s0.take(8) =~= text_tag());
    lemma_dec_clean(((y + 1) * 16 - 3) as nat);
    lemma_plain_lit(s1);
    lemma_span_scan_clean(row);
    if tail.len() > 0 {
        lemma_tspan_clean(sx * 8, tail, cur);
    } else {
        lemma_no_lt(tl);
    }
    lemma_lead_lt(s2);
    assert(s2.take(8)[1] != text_tag()[1]);
    let a1 = s0 + d;
    lemma_join(s0, d);
    let a2 = a1 + s1;
    lemma_join(a1, s1);
    let a3 = a2 + out;
    assert(a2.last() == '>');
    lemma_join(a2, out);
    let a4 = a3 + tl;
    assert(a3.last() == '>') by {
        if out.len() > 0 {
            assert(a3.last() == out.last());
        }
    }
    lemma_join(a3, tl);
    let a5 = a4 + s2;
    lemma_join(a4, s2);
    assert(a5 == row_text(row, y));
    assert(a5[0] == s0[0]);
    assert(a5.last() == s2.last());
}

proof fn lemma_rows_count(rows: Seq<Seq<(Seq<char>, CellStyle)>>)
    ensures
        occurrences(rows_svg(rows), text_tag()) == rows.len(),
        rows_svg(rows).len() == 0 || rows_svg(rows).last() == '\n',
    decreases rows.len(),
{
    if rows.len() == 0 {
        lemma_no_lt(Seq::<char>::empty());
    } else {
        lemma_rows_count(rows.drop_last());
        let y = (rows.len() - 1) as nat;
        let prev = rows_svg(rows.drop_last());
        let b = bg_rects(rows.last(), y);
        let t = row_text(rows.last(), y);
        lemma_bg_rects_clean(rows.last(), y);
        lemma_row_text_once(rows.last(), y);
        lemma_join(prev, b);
        assert(clean_joint(prev + b, t));
        lemma_join(prev + b, t);
        assert((prev + b + t).last() == t.last());
    }
}

/// The opening of the document up to the end of its `viewBox`.
pub open spec fn svg_open(w: nat, h: nat) -> Seq<char> {
    "<svg xmlns=\"http://www.w3.org/2000/svg\" viewBox=\"0 0 "@ + dec_seq(w * 8) + " "@ + dec_seq(h * 16) + "\""@
}

/// The background rectangle of the document.
pub open spec fn svg_background(bg_color: Seq<char>) -> Seq<char> {
    "<rect width=\"100%\" height=\"100%\" fill=\""@ + bg_color + "\"/>"@
}

/// The SVG of a grid of `h` rows, `w` cells wide (the width of its first
/// row), opens with a `viewBox` of 8·w by 16·h, paints the whole canvas in
/// the background colour, holds one `<text y=` element per row, and ends
/// the document. (A background colour that itself contains `<text y=` would
/// add to the count, so it is left out.)
pub proof fn law_svg_document_shape(cells: Seq<Vec<StyledCell>>, bg_color: Seq<char>)
    requires
        occurrences(bg_color, text_tag()) == 0,
    ensures ({
        let g = grid_view(cells);
        let w: nat = if g.len() > 0 { g[0].len() } else { 0 };
        let doc = cells_svg_spec(g, bg_color);
        &&& has_prefix(doc, svg_open(w, g.len()))
        &&& has_substring(doc, svg_background(bg_color))
        &&& occurrences(doc, text_tag()) == g.len()
        &&& has_suffix(doc, "</svg>\n"@)
    }),
{
    reveal_strlit("<svg xmlns=\"http://www.w3.org/2000/svg\" viewBox=\"0 0 ");
    reveal_strlit(" ");
    reveal_strlit("\" width=\"");
    reveal_strlit("\" height=\"");
    reveal_strlit("\">\n");
    reveal_strlit("<rect width=\"100%\" height=\"100%\" fill=\"");
    reveal_strlit("\"/>\n");
    reveal_strlit("\"/>");
    reveal_strlit("\"");
    reveal_strlit("<style>text { font-family: 'JetBrains Mono', 'Fira Code', 'Cascadia Code', monospace; font-size: 14px; white-space: pre; }</style>\n");
    reveal_strlit("<style>text { font-family: 'JetBrains Mono', 'Fira Code', 'Cascadia Code', monospace; font-size: 14px; white-space: pre; }");
    reveal_strlit("</style>\n");
    reveal_strlit("</svg>\n");
    reveal_strlit("<text y=");
    let g = grid_view(cells);
    let w: nat = if g.len() > 0 { g[0].len() } else { 0 };
    let h = g.len();
    let l0 = "<svg xmlns=\"http://www.w3.org/2000/svg\" viewBox=\"0 0 "@;
    let dw = dec_seq(w * 8);
    let sp = " "@;
    let dh = dec_seq(h * 16);
    let l1 = "\" width=\""@;
    let l2 = "\" height=\""@;
    let l3 = "\">\n"@;
    let l4 = "<rect width=\"100%\" height=\"100%\" fill=\""@;
    let l5 = "\"/>\n"@;
    let st = "<style>text { font-family: 'JetBrains Mono', 'Fira Code', 'Cascadia Code', monospace; font-size: 14px; white-space: pre; }</style>\n"@;
    let st1 = "<style>text { font-family: 'JetBrains Mono', 'Fira Code', 'Cascadia Code', monospace; font-size: 14px; white-space: pre; }"@;
    let st2 = "</style>\n"@;
    let end = "</svg>\n"@;
    lemma_dec_clean(w * 8);
    lemma_dec_clean(h * 16);
    lemma_lead_lt(l0);
    assert(l0.take(8)[1] != text_tag()[1]);
    lemma_plain_lit(sp);
    lemma_plain_lit(l1);
    lemma_plain_lit(l2);
    lemma_plain_lit(l3);
    lemma_lead_lt(l4);
    assert(l4.take(8)[1] != text_tag()[1]);
    lemma_plain_lit(l5);
    assert(st =~= st1 + st2);
    lemma_lead_lt(st1);
    assert(st1.take(8)[1] != text_tag()[1]);
    lemma_lead_lt(st2);
    assert(st2.take(8)[1] != text_tag()[1]);
    lemma_join(st1, st2);
    lemma_lead_lt(end);
    assert(end.take(7)[1] != text_tag()[1]);
    assert(!has_prefix(end, text_tag()));
    let a1 = l0 + dw;
    lemma_join(l0, dw);
    let a2 = a1 + sp;
    lemma_join(a1, sp);
    let a3 = a2 + dh;
    lemma_join(a2, dh);
    let a4 = a3 + l1;
    lemma_join(a3, l1);
    let a5 = a4 + dw;
    lemma_join(a4, dw);
    let a6 = a5 + l2;
    lemma_join(a5, l2);
    let a7 = a6 + dh;
    lemma_join(a6, dh);
    let a8 = a7 + l3;
    lemma_join(a7, l3);
    let a9 = a8 + l4;
    lemma_join(a8, l4);
    let a10 = a9 + bg_color;
    assert(a9.last() == '"');
    lemma_join(a9, bg_color);
    let a11 = a10 + l5;
    lemma_join(a10, l5);
    let head = a11 + st;
    lemma_join(a11, st);
    assert(head == svg_head(w, h, bg_color));
    let rows = rows_svg(g);
    lemma_rows_count(g);
    assert(head.last() == '\n');
    lemma_join(head, rows);
    lemma_join(head + rows, end);
    let doc = head + rows + end;
    assert(doc == cells_svg_spec(g, bg_color));
    // The opening.
    let open = svg_open(w, h);
    assert(doc.take(open.len() as int) =~= open);
    // The background rectangle.
    let bgr = svg_background(bg_color);
    let k = a8.len() as int;
    assert(doc.subrange(k, k + bgr.len()) =~= bgr);
    // The end.
    assert(doc.skip(doc.len() - end.len()) =~= end);
}

} // verus!
