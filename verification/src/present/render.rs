//! Text pieces of the slide view that do not depend on the terminal.

use vstd::prelude::*;
use crate::text::{push_char, chars_of, split_lines, lines_seq};
use super::{SlideElement, ElemV};

verus! {

/// Where the marker of slide `current` (0-based) of `total` sits on a bar of
/// `width` cells: the slides are spread evenly from the first cell to the last.
pub open spec fn progress_pos(current: nat, total: nat, width: nat) -> int {
    (current * (width - 1) as nat / (total - 1) as nat) as int
}

/// The progress bar: `width` cells of `─` with a `●` for the current slide;
/// empty for a single slide or a bar narrower than three cells.
pub open spec fn progress_bar_spec(current: nat, total: nat, width: nat) -> Seq<char> {
    if total <= 1 || width < 3 {
        Seq::empty()
    } else {
        Seq::new(width, |i: int| if i == progress_pos(current, total, width) { '●' } else { '─' })
    }
}

/// The slide progress bar shown in the footer.
pub fn build_progress_bar(current: usize, total: usize, width: usize) -> (r: String)
    ensures
        r@ == progress_bar_spec(current as nat, total as nat, width as nat),
{
    let mut out = String::new();
    if total <= 1 || width < 3 {
        return out;
    }
    let a: u128 = current as u128;
    let b: u128 = (width - 1) as u128;
    assert(a * b <= 0xffff_ffff_ffff_ffff_ffff_ffff_ffff_ffff) by (nonlinear_arith)
        requires
            a <= 0xffff_ffff_ffff_ffff,
            b <= 0xffff_ffff_ffff_ffff,
    ;
    let pos: u128 = a * b / ((total - 1) as u128);
    let mut i: usize = 0;
    while i < width
        invariant
            i <= width,
            total > 1,
            width >= 3,
            pos as int == progress_pos(current as nat, total as nat, width as nat),
            out@ =~= progress_bar_spec(current as nat, total as nat, width as nat).take(i as int),
        decreases width - i,
    {
        if i as u128 == pos {
            push_char(&mut out, '●');
        } else {
            push_char(&mut out, '─');
        }
        i = i + 1;
    }
    assert(progress_bar_spec(current as nat, total as nat, width as nat).take(i as int)
        =~= progress_bar_spec(current as nat, total as nat, width as nat));
    out
}


/// How many rows a slide element asks for.
#[derive(Debug, Clone, Copy, PartialEq, Eq, Structural)]
pub enum RowHint {
    /// At least this many rows (the element grows into spare space).
    AtLeast(u16),
    /// Exactly this many rows.
    Exactly(u16),
}

/// `n` as `u16` (as a cast truncates) plus `k`, when that fits in a `u16`.
pub open spec fn count_plus_fits(n: nat, k: nat) -> bool {
    ((n as u16) as nat) + k <= u16::MAX
}

/// The element sizes for which the row counts fit in a `u16`.
pub open spec fn rows_fit(e: ElemV) -> bool {
    match e {
        ElemV::Bullets(items) => count_plus_fits(items.len(), 1),
        ElemV::OrderedList(items) => count_plus_fits(items.len(), 1),
        ElemV::Blockquote(lines) => count_plus_fits(lines.len(), 1),
        ElemV::Code { content, .. } => count_plus_fits(lines_seq(content).len(), 2),
        ElemV::Table { rows, .. } => count_plus_fits(rows.len(), 4),
        _ => true,
    }
}

/// The rows an element takes: charts at least ten; text and headings two;
/// lists and quotes a row per line and one more; code a row per line and two
/// for its border; tables a row per body row and four for header and borders.
pub open spec fn element_rows_spec(e: ElemV) -> RowHint {
    match e {
        ElemV::Chart(_) => RowHint::AtLeast(10),
        ElemV::Text(_) => RowHint::Exactly(2),
        ElemV::Heading { .. } => RowHint::Exactly(2),
        ElemV::Bullets(items) => RowHint::Exactly(((items.len() as u16) + 1) as u16),
        ElemV::OrderedList(items) => RowHint::Exactly(((items.len() as u16) + 1) as u16),
        ElemV::Blockquote(lines) => RowHint::Exactly(((lines.len() as u16) + 1) as u16),
        ElemV::Code { content, .. } => RowHint::Exactly(((lines_seq(content).len() as u16) + 2) as u16),
        ElemV::Table { rows, .. } => RowHint::Exactly(((rows.len() as u16) + 4) as u16),
    }
}

/// The rows a slide element takes in the slide layout.
pub fn element_rows(el: &SlideElement) -> (r: RowHint)
    requires rows_fit(el@),
    ensures r == element_rows_spec(el@),
{
    match el {
        SlideElement::Chart(_) => RowHint::AtLeast(10),
        SlideElement::Text(_) => RowHint::Exactly(2),
        SlideElement::Heading { .. } => RowHint::Exactly(2),
        SlideElement::Bullets(items) => RowHint::Exactly(items.len() as u16 + 1),
        SlideElement::OrderedList(items) => RowHint::Exactly(items.len() as u16 + 1),
        SlideElement::Blockquote(lines) => RowHint::Exactly(lines.len() as u16 + 1),
        SlideElement::Code { content, .. } => {
            let cs = chars_of(content.as_str());
            let lines = split_lines(cs.as_slice());
            RowHint::Exactly(lines.len() as u16 + 2)
        },
        SlideElement::Table { rows, .. } => RowHint::Exactly(rows.len() as u16 + 4),
    }
}


/// The marker of a slide in range lands inside the bar.
pub proof fn law_progress_marker_inside(current: nat, total: nat, width: nat)
    requires
        total > 1,
        width >= 3,
        current < total,
    ensures
        0 <= progress_pos(current, total, width) < width,
        progress_bar_spec(current, total, width).len() == width,
        progress_bar_spec(current, total, width)[progress_pos(current, total, width)] == '●',
{
    let a = current * ((width - 1) as nat);
    let d = (total - 1) as nat;
    assert(a <= d * ((width - 1) as nat)) by (nonlinear_arith)
        requires
            current <= d,
            a == current * ((width - 1) as nat),
    ;
    assert(a / d <= (width - 1) as nat) by (nonlinear_arith)
        requires
            d >= 1,
            a <= d * ((width - 1) as nat),
    ;
}

} // verus!
