//! ANSI terminal output: styled cells to escape sequences and text lines.

use vstd::prelude::*;
use crate::text::{
    strs, dec_seq, usize_chars, push_chars, append_str, join_with, join_strings, chars_of,
    trim_end_seq, trim_end_index, copy_range, string_of, digits_val, digit_char,
};

verus! {

/// A terminal colour, as the drawing library names them.
#[derive(Debug, Clone, Copy, PartialEq, Eq, Structural)]
pub enum TermColor {
    Reset,
    Black,
    Red,
    Green,
    Yellow,
    Blue,
    Magenta,
    Cyan,
    Gray,
    DarkGray,
    LightRed,
    LightGreen,
    LightYellow,
    LightBlue,
    LightMagenta,
    LightCyan,
    White,
    Rgb(u8, u8, u8),
    Indexed(u8),
}

/// Text modifier bits, as the drawing library numbers them.
pub const BOLD: u16 = 1;
pub const DIM: u16 = 2;
pub const ITALIC: u16 = 4;
pub const UNDERLINED: u16 = 8;

/// The style of a terminal cell.
#[derive(Debug, Clone, Copy, PartialEq, Eq, Structural)]
pub struct CellStyle {
    pub fg: Option<TermColor>,
    pub bg: Option<TermColor>,
    pub underline_color: Option<TermColor>,
    /// Modifiers turned on.
    pub add_modifier: u16,
    /// Modifiers turned off.
    pub sub_modifier: u16,
}

/// The style with nothing set.
pub open spec fn plain_style() -> CellStyle {
    CellStyle { fg: None, bg: None, underline_color: None, add_modifier: 0, sub_modifier: 0 }
}

/// The style with nothing set.
pub fn default_style() -> (r: CellStyle)
    ensures r == plain_style(),
{
    CellStyle { fg: None, bg: None, underline_color: None, add_modifier: 0, sub_modifier: 0 }
}

/// One drawn cell: its text and style.
#[derive(Debug, Clone, PartialEq)]
pub struct StyledCell {
    pub symbol: String,
    pub style: CellStyle,
}

/// The SGR parameter of a colour, for the foreground or (with `bg`) the
/// background; the terminal's default colour has none.
pub open spec fn color_code_spec(color: TermColor, bg: bool) -> Option<Seq<char>> {
    let offset: nat = if bg { 10 } else { 0 };
    let prefix: nat = if bg { 48 } else { 38 };
    match color {
        TermColor::Reset => None,
        TermColor::Black => Some(dec_seq(30 + offset)),
        TermColor::Red => Some(dec_seq(31 + offset)),
        TermColor::Green => Some(dec_seq(32 + offset)),
        TermColor::Yellow => Some(dec_seq(33 + offset)),
        TermColor::Blue => Some(dec_seq(34 + offset)),
        TermColor::Magenta => Some(dec_seq(35 + offset)),
        TermColor::Cyan => Some(dec_seq(36 + offset)),
        TermColor::Gray => Some(dec_seq(37 + offset)),
        TermColor::DarkGray => Some(dec_seq(90 + offset)),
        TermColor::LightRed => Some(dec_seq(91 + offset)),
        TermColor::LightGreen => Some(dec_seq(92 + offset)),
        TermColor::LightYellow => Some(dec_seq(93 + offset)),
        TermColor::LightBlue => Some(dec_seq(94 + offset)),
        TermColor::LightMagenta => Some(dec_seq(95 + offset)),
        TermColor::LightCyan => Some(dec_seq(96 + offset)),
        TermColor::White => Some(dec_seq(97 + offset)),
        TermColor::Indexed(i) => Some(dec_seq(prefix) + ";5;"@ + dec_seq(i as nat)),
        TermColor::Rgb(r, g, b) => Some(
            dec_seq(prefix) + ";2;"@ + dec_seq(r as nat) + ";"@ + dec_seq(g as nat) + ";"@ + dec_seq(b as nat),
        ),
    }
}

fn push_number(s: &mut String, n: usize)
    ensures final(s)@ == old(s)@ + dec_seq(n as nat),
{
    let d = usize_chars(n);
    push_chars(s, d.as_slice());
}

/// The SGR parameter of a colour (`is_bg` selects the background).
pub fn color_to_ansi(color: TermColor, is_bg: bool) -> (r: Option<String>)
    ensures
        match r {
            Some(c) => color_code_spec(color, is_bg) == Some(c@),
            None => color_code_spec(color, is_bg) is None,
        },
{
    let offset: usize = if is_bg { 10 } else { 0 };
    let prefix: usize = if is_bg { 48 } else { 38 };
    let base: usize = match color {
        TermColor::Reset => {
            return None;
        },
        TermColor::Black => 30,
        TermColor::Red => 31,
        TermColor::Green => 32,
        TermColor::Yellow => 33,
        TermColor::Blue => 34,
        TermColor::Magenta => 35,
        TermColor::Cyan => 36,
        TermColor::Gray => 37,
        TermColor::DarkGray => 90,
        TermColor::LightRed => 91,
        TermColor::LightGreen => 92,
        TermColor::LightYellow => 93,
        TermColor::LightBlue => 94,
        TermColor::LightMagenta => 95,
        TermColor::LightCyan => 96,
        TermColor::White => 97,
        TermColor::Indexed(i) => {
            let mut s = String::new();
            push_number(&mut s, prefix);
            append_str(&mut s, ";5;");
            push_number(&mut s, i as usize);
            return Some(s);
        },
        TermColor::Rgb(r, g, b) => {
            let mut s = String::new();
            push_number(&mut s, prefix);
            append_str(&mut s, ";2;");
            push_number(&mut s, r as usize);
            append_str(&mut s, ";");
            push_number(&mut s, g as usize);
            append_str(&mut s, ";");
            push_number(&mut s, b as usize);
            return Some(s);
        },
    };
    let mut s = String::new();
    push_number(&mut s, base + offset);
    Some(s)
}

/// The SGR parameters of a style: foreground, background, then bold, dim,
/// italic and underline.
pub open spec fn style_codes(style: CellStyle) -> Seq<Seq<char>> {
    let fg = match style.fg {
        Some(c) => match color_code_spec(c, false) {
            Some(code) => seq![code],
            None => Seq::empty(),
        },
        None => Seq::empty(),
    };
    let bg = match style.bg {
        Some(c) => match color_code_spec(c, true) {
            Some(code) => seq![code],
            None => Seq::empty(),
        },
        None => Seq::empty(),
    };
    let m = style.add_modifier;
    fg + bg + (if m & BOLD != 0 { seq!["1"@] } else { Seq::empty() })
        + (if m & DIM != 0 { seq!["2"@] } else { Seq::empty() })
        + (if m & ITALIC != 0 { seq!["3"@] } else { Seq::empty() })
        + (if m & UNDERLINED != 0 { seq!["4"@] } else { Seq::empty() })
}

/// The escape sequence that sets a style (empty when it sets nothing).
pub open spec fn style_escape(style: CellStyle) -> Seq<char> {
    let codes = style_codes(style);
    if codes.len() == 0 {
        Seq::empty()
    } else {
        "\x1b["@ + join_with(codes, ";"@) + "m"@
    }
}

fn push_code(codes: &mut Vec<String>, code: &str)
    ensures strs(final(codes)@) == strs(old(codes)@).push(code@),
{
    codes.push(code.to_owned());
    assert(strs(codes@) =~= strs(old(codes)@).push(code@));
}

/// The escape sequence that sets a style.
pub fn style_to_ansi(style: CellStyle) -> (r: String)
    ensures r@ == style_escape(style),
{
    let mut codes: Vec<String> = Vec::new();
    match style.fg {
        Some(c) => match color_to_ansi(c, false) {
            Some(code) => push_code(&mut codes, code.as_str()),
            None => {},
        },
        None => {},
    }
    match style.bg {
        Some(c) => match color_to_ansi(c, true) {
            Some(code) => push_code(&mut codes, code.as_str()),
            None => {},
        },
        None => {},
    }
    let m = style.add_modifier;
    if m & BOLD != 0 {
        push_code(&mut codes, "1");
    }
    if m & DIM != 0 {
        push_code(&mut codes, "2");
    }
    if m & ITALIC != 0 {
        push_code(&mut codes, "3");
    }
    if m & UNDERLINED != 0 {
        push_code(&mut codes, "4");
    }
    assert(strs(codes@) =~= style_codes(style));
    if codes.len() == 0 {
        String::new()
    } else {
        let mut out = String::new();
        append_str(&mut out, "\x1b[");
        let joined = join_strings(codes.as_slice(), ";");
        append_str(&mut out, joined.as_str());
        append_str(&mut out, "m");
        out
    }
}

/// The text of a row of cells and the style in force after it: each change
/// of style resets the previous one (unless it was plain) and sets the new one.
pub open spec fn ansi_row(cells: Seq<(Seq<char>, CellStyle)>, colorize: bool) -> (Seq<char>, CellStyle)
    decreases cells.len(),
{
    if cells.len() == 0 {
        (Seq::empty(), plain_style())
    } else {
        let (text, last) = ansi_row(cells.drop_last(), colorize);
        let (sym, style) = cells.last();
        if colorize && style != last {
            let reset = if last != plain_style() { "\x1b[0m"@ } else { Seq::empty() };
            (text + reset + style_escape(style) + sym, style)
        } else {
            (text + sym, last)
        }
    }
}

/// A printed row: the cells with their escapes, a final reset when a style
/// is still in force, and trailing whitespace removed.
pub open spec fn ansi_line_spec(cells: Seq<(Seq<char>, CellStyle)>, colorize: bool) -> Seq<char> {
    let (text, last) = ansi_row(cells, colorize);
    let closed = if colorize && last != plain_style() { text + "\x1b[0m"@ } else { text };
    trim_end_seq(closed)
}

pub open spec fn cells_view(cells: Seq<StyledCell>) -> Seq<(Seq<char>, CellStyle)> {
    cells.map_values(|c: StyledCell| (c.symbol@, c.style))
}

/// One row of a drawn chart as terminal text, coloured when `colorize`.
pub fn ansi_line(cells: &[StyledCell], colorize: bool) -> (r: String)
    ensures r@ == ansi_line_spec(cells_view(cells@), colorize),
{
    let ghost cv = cells_view(cells@);
    let mut line = String::new();
    let mut last = default_style();
    let mut i: usize = 0;
    assert(cv.take(0) =~= Seq::<(Seq<char>, CellStyle)>::empty());
    while i < cells.len()
        invariant
            i <= cells@.len(),
            cv == cells_view(cells@),
            (line@, last) == ansi_row(cv.take(i as int), colorize),
        decreases cells@.len() - i,
    {
        assert(cv.take(i + 1).drop_last() =~= cv.take(i as int));
        assert(cv.take(i + 1).last() == (cells@[i as int].symbol@, cells@[i as int].style));
        let style = cells[i].style;
        if colorize && style != last {
            if last != default_style() {
                append_str(&mut line, "\x1b[0m");
            }
            let esc = style_to_ansi(style);
            append_str(&mut line, esc.as_str());
            last = style;
        }
        append_str(&mut line, cells[i].symbol.as_str());
        i = i + 1;
    }
    assert(cv.take(i as int) =~= cv);
    if colorize && last != default_style() {
        append_str(&mut line, "\x1b[0m");
    }
    let cs = chars_of(line.as_str());
    let end = trim_end_index(cs.as_slice(), 0);
    assert(cs@.subrange(0, cs@.len() as int) =~= cs@);
    string_of(copy_range(cs.as_slice(), 0, end).as_slice())
}


/// Where a named colour stands in the terminal's 16-colour palette: black,
/// red, green, yellow, blue, magenta, cyan and white (`Gray`) are 0 to 7,
/// and their bright forms (`DarkGray` to `White`) 8 to 15; other colours
/// have no place (-1).
pub open spec fn palette_index(c: TermColor) -> int {
    match c {
        TermColor::Black => 0,
        TermColor::Red => 1,
        TermColor::Green => 2,
        TermColor::Yellow => 3,
        TermColor::Blue => 4,
        TermColor::Magenta => 5,
        TermColor::Cyan => 6,
        TermColor::Gray => 7,
        TermColor::DarkGray => 8,
        TermColor::LightRed => 9,
        TermColor::LightGreen => 10,
        TermColor::LightYellow => 11,
        TermColor::LightBlue => 12,
        TermColor::LightMagenta => 13,
        TermColor::LightCyan => 14,
        TermColor::White => 15,
        _ => -1,
    }
}

proof fn lemma_dec_value(n: nat)
    ensures digits_val(dec_seq(n)) == n,
    decreases n,
{
    if n >= 10 {
        lemma_dec_value(n / 10);
        let p = dec_seq(n / 10);
        assert(dec_seq(n).drop_last() =~= p);
        assert(dec_seq(n).last() == digit_char((n % 10) as int));
        assert(digit_char((n % 10) as int) as int - 48 == n % 10);
        assert((n / 10) * 10 + n % 10 == n) by (nonlinear_arith);
        assert(digits_val(dec_seq(n)) == digits_val(p) * 10 + ((n % 10) as nat));
    } else {
        let e = Seq::<char>::empty();
        assert(digits_val(e) == 0);
        assert(dec_seq(n).drop_last() =~= e);
        assert(dec_seq(n).last() == digit_char(n as int));
        assert(digit_char(n as int) as int - 48 == n);
    }
}

/// Different numbers are written differently.
proof fn lemma_dec_injective(n: nat, m: nat)
    ensures dec_seq(n) == dec_seq(m) ==> n == m,
{
    lemma_dec_value(n);
    lemma_dec_value(m);
}

/// A named colour is written with the standard SGR code of its palette
/// place: 30 to 37 for the eight normal colours and 90 to 97 for the bright
/// ones, 10 more as a background; the terminal's default colour has no code,
/// and no two named colours share a code.
pub proof fn law_named_color_codes(c: TermColor, d: TermColor, bg: bool)
    ensures
        0 <= palette_index(c) ==> color_code_spec(c, bg) == Some(dec_seq((
            (if palette_index(c) < 8 { 30 + palette_index(c) } else { 90 + palette_index(c) - 8 })
            + (if bg { 10int } else { 0int })) as nat)),
        c == TermColor::Reset ==> color_code_spec(c, bg) is None,
        0 <= palette_index(c) && 0 <= palette_index(d) && c != d
            ==> color_code_spec(c, bg) != color_code_spec(d, bg),
{
    if 0 <= palette_index(c) && 0 <= palette_index(d) && c != d {
        let off: int = if bg { 10 } else { 0 };
        let nc = (if palette_index(c) < 8 { 30 + palette_index(c) } else { 90 + palette_index(c) - 8 }) + off;
        let nd = (if palette_index(d) < 8 { 30 + palette_index(d) } else { 90 + palette_index(d) - 8 }) + off;
        assert(palette_index(c) != palette_index(d));
        assert(nc != nd);
        lemma_dec_injective(nc as nat, nd as nat);
    }
}

} // verus!
