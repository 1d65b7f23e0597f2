//! Markdown → slides.
//!
//! Slides are separated by `---` lines or started by `# ` headings. Within a
//! slide: `##`/`###` sub-headings, `-`/`*` bullets, `1.` numbered items, `>`
//! quotes, GFM tables, fenced code blocks, and fenced `chart` blocks of
//! `key: value` lines. Other non-blank lines join into paragraphs.

use vstd::prelude::*;
use crate::chart::{ChartType, SortOrder, AggFunction};
use crate::text::{
    lines_seq, has_prefix, trim_start_seq, is_digit, push_char, push_chars, trim_start, starts_with,
    split_lines,
    strs, seqs, chars_of, string_of, strings_of, trim_seq, trim, copy_range, ascii_lower_seq,
    eq_ascii_lower, chars_eq, parse_unsigned_spec, parse_unsigned, split_on, split_char, append_str, trim_end_seq, is_ws,
};
use super::{ChartBlock, ChartBlockV, ElemV, SlideV, Slide, SlideElement, Presentation, elems_view, slides_view};
use crate::chart::opt_view;
use crate::oneshot::summary::agg_name;
use crate::loader::rows_view;

verus! {

/// Index of the first `c` in `s`, or -1.
pub open spec fn first_index_of(s: Seq<char>, c: char) -> int {
    if s.contains(c) {
        choose|i: int| 0 <= i < s.len() && s[i] == c && forall|j: int| 0 <= j < i ==> s[j] != c
    } else {
        -1
    }
}

/// The position of the first `c` in `s`.
pub fn find_first(s: &[char], c: char) -> (r: Option<usize>)
    ensures
        r is None <==> first_index_of(s@, c) == -1,
        r is Some ==> r->0 as int == first_index_of(s@, c) && r->0 < s@.len(),
{
    let mut i: usize = 0;
    while i < s.len()
        invariant
            i <= s@.len(),
            forall|j: int| 0 <= j < i ==> s@[j] != c,
        decreases s@.len() - i,
    {
        if s[i] == c {
            proof {
                assert(s@.contains(c));
                let w = choose|w: int| 0 <= w < s@.len() && s@[w] == c && forall|j: int| 0 <= j < w ==> s@[j] != c;
                assert(0 <= i < s@.len() && s@[i as int] == c && forall|j: int| 0 <= j < i ==> s@[j] != c);
                if w < i {
                    assert(s@[w] != c);
                } else if w > i {
                    assert(s@[i as int] != c);
                }
            }
            return Some(i);
        }
        i = i + 1;
    }
    None
}

/// The chart type a `type:` value names (ASCII case-insensitively).
pub open spec fn chart_type_named(v: Seq<char>) -> Option<ChartType> {
    let l = ascii_lower_seq(v);
    if l == "line"@ {
        Some(ChartType::Line)
    } else if l == "bar"@ {
        Some(ChartType::Bar)
    } else if l == "scatter"@ {
        Some(ChartType::Scatter)
    } else if l == "histogram"@ {
        Some(ChartType::Histogram)
    } else if l == "heatmap"@ {
        Some(ChartType::Heatmap)
    } else {
        None
    }
}

/// The sort order a `sort:` value names.
pub open spec fn sort_named(v: Seq<char>) -> Option<SortOrder> {
    let l = ascii_lower_seq(v);
    if l == "desc"@ {
        Some(SortOrder::Desc)
    } else if l == "asc"@ {
        Some(SortOrder::Asc)
    } else {
        None
    }
}

/// The aggregation an `agg:` value names.
pub open spec fn agg_named(v: Seq<char>) -> Option<AggFunction> {
    let l = ascii_lower_seq(v);
    if l == "sum"@ {
        Some(AggFunction::Sum)
    } else if l == "mean"@ {
        Some(AggFunction::Mean)
    } else if l == "count"@ {
        Some(AggFunction::Count)
    } else if l == "max"@ {
        Some(AggFunction::Max)
    } else if l == "min"@ {
        Some(AggFunction::Min)
    } else {
        None
    }
}

/// The number a value reads as, if it is at most `max`.
pub open spec fn number_named(v: Seq<char>, max: nat) -> Option<nat> {
    parse_unsigned_spec(v, max)
}

pub open spec fn as_usize(o: Option<nat>) -> Option<usize> {
    match o {
        Some(n) => Some(n as usize),
        None => None,
    }
}

pub open spec fn as_u16(o: Option<nat>) -> Option<u16> {
    match o {
        Some(n) => Some(n as u16),
        None => None,
    }
}

/// A chart block with no keys set.
pub open spec fn empty_block() -> ChartBlockV {
    ChartBlockV {
        source: Seq::empty(),
        chart_type: None,
        x_col: None,
        y_col: None,
        color_col: None,
        title: None,
        filter: Seq::empty(),
        sort: None,
        agg: None,
        top: None,
        bins: None,
        height: None,
        diff: None,
    }
}

/// One `key: value` line applied to a chart block (split at the first `:`,
/// both sides trimmed; unknown keys and lines without `:` change nothing;
/// unreadable values clear the setting).
pub open spec fn apply_chart_line(b: ChartBlockV, line: Seq<char>) -> ChartBlockV {
    let k = first_index_of(line, ':');
    if k < 0 {
        b
    } else {
        let key = trim_seq(line.take(k));
        let v = trim_seq(line.skip(k + 1));
        if key == "source"@ {
            ChartBlockV { source: v, ..b }
        } else if key == "type"@ {
            ChartBlockV { chart_type: chart_type_named(v), ..b }
        } else if key == "x"@ {
            ChartBlockV { x_col: Some(v), ..b }
        } else if key == "y"@ {
            ChartBlockV { y_col: Some(v), ..b }
        } else if key == "color"@ {
            ChartBlockV { color_col: Some(v), ..b }
        } else if key == "title"@ {
            ChartBlockV { title: Some(v), ..b }
        } else if key == "where"@ {
            ChartBlockV { filter: b.filter.push(v), ..b }
        } else if key == "sort"@ {
            ChartBlockV { sort: sort_named(v), ..b }
        } else if key == "agg"@ {
            ChartBlockV { agg: agg_named(v), ..b }
        } else if key == "top"@ {
            ChartBlockV { top: as_usize(number_named(v, usize::MAX as nat)), ..b }
        } else if key == "bins"@ {
            ChartBlockV { bins: as_usize(number_named(v, usize::MAX as nat)), ..b }
        } else if key == "height"@ {
            ChartBlockV { height: as_u16(number_named(v, u16::MAX as nat)), ..b }
        } else if key == "diff"@ {
            ChartBlockV { diff: Some(v), ..b }
        } else {
            b
        }
    }
}

/// The chart block that a list of `key: value` lines describes.
pub open spec fn chart_block_spec(lines: Seq<Seq<char>>) -> ChartBlockV
    decreases lines.len(),
{
    if lines.len() == 0 {
        empty_block()
    } else {
        apply_chart_line(chart_block_spec(lines.drop_last()), lines.last())
    }
}

fn key_is(key: &[char], name: &str) -> (r: bool)
    ensures r == (key@ == name@),
{
    let n = chars_of(name);
    chars_eq(key, n.as_slice())
}

fn value_is(v: &[char], name: &str) -> (r: bool)
    ensures r == (ascii_lower_seq(v@) == name@),
{
    let n = chars_of(name);
    eq_ascii_lower(v, n.as_slice())
}

fn chart_type_of(v: &[char]) -> (r: Option<ChartType>)
    ensures r == chart_type_named(v@),
{
    if value_is(v, "line") {
        Some(ChartType::Line)
    } else if value_is(v, "bar") {
        Some(ChartType::Bar)
    } else if value_is(v, "scatter") {
        Some(ChartType::Scatter)
    } else if value_is(v, "histogram") {
        Some(ChartType::Histogram)
    } else if value_is(v, "heatmap") {
        Some(ChartType::Heatmap)
    } else {
        None
    }
}

fn sort_of(v: &[char]) -> (r: Option<SortOrder>)
    ensures r == sort_named(v@),
{
    if value_is(v, "desc") {
        Some(SortOrder::Desc)
    } else if value_is(v, "asc") {
        Some(SortOrder::Asc)
    } else {
        None
    }
}

fn agg_of(v: &[char]) -> (r: Option<AggFunction>)
    ensures r == agg_named(v@),
{
    if value_is(v, "sum") {
        Some(AggFunction::Sum)
    } else if value_is(v, "mean") {
        Some(AggFunction::Mean)
    } else if value_is(v, "count") {
        Some(AggFunction::Count)
    } else if value_is(v, "max") {
        Some(AggFunction::Max)
    } else if value_is(v, "min") {
        Some(AggFunction::Min)
    } else {
        None
    }
}

fn apply_line(b: &mut ChartBlock, line: &[char])
    ensures final(b)@ == apply_chart_line(old(b)@, line@),
{
    let found = find_first(line, ':');
    if found.is_none() {
        return;
    }
    let k: usize = found.unwrap();
    let n: usize = line.len();
    let key = trim(copy_range(line, 0, k).as_slice());
    let v = trim(copy_range(line, k + 1, n).as_slice());
    let value = string_of(v.as_slice());
    if key_is(key.as_slice(), "source") {
        b.source = value;
    } else if key_is(key.as_slice(), "type") {
        b.chart_type = chart_type_of(v.as_slice());
    } else if key_is(key.as_slice(), "x") {
        b.x_col = Some(value);
    } else if key_is(key.as_slice(), "y") {
        b.y_col = Some(value);
    } else if key_is(key.as_slice(), "color") {
        b.color_col = Some(value);
    } else if key_is(key.as_slice(), "title") {
        b.title = Some(value);
    } else if key_is(key.as_slice(), "where") {
        b.filter.push(value);
        assert(strs(b.filter@) =~= strs(old(b).filter@).push(v@));
    } else if key_is(key.as_slice(), "sort") {
        b.sort = sort_of(v.as_slice());
    } else if key_is(key.as_slice(), "agg") {
        b.agg = agg_of(v.as_slice());
    } else if key_is(key.as_slice(), "top") {
        b.top = parse_unsigned(v.as_slice(), usize::MAX);
    } else if key_is(key.as_slice(), "bins") {
        b.bins = parse_unsigned(v.as_slice(), usize::MAX);
    } else if key_is(key.as_slice(), "height") {
        b.height = match parse_unsigned(v.as_slice(), 65535) {
            Some(n) => Some(n as u16),
            None => None,
        };
    } else if key_is(key.as_slice(), "diff") {
        b.diff = Some(value);
    }
}

/// The warning for a `key: value` line whose value the chart block cannot
/// use (`type`, `sort`, `agg`, `top`, `bins`, `height`); the setting then
/// falls back to automatic.
pub open spec fn chart_line_warning_spec(line: Seq<char>) -> Option<Seq<char>> {
    let k = first_index_of(line, ':');
    if k < 0 {
        None
    } else {
        let key = trim_seq(line.take(k));
        let v = trim_seq(line.skip(k + 1));
        if key == "type"@ && chart_type_named(v) is None {
            Some("warning: unknown chart type '"@ + v + "' (expected line, bar, scatter, histogram or heatmap); choosing automatically"@)
        } else if key == "sort"@ && sort_named(v) is None {
            Some("warning: unknown sort '"@ + v + "' (expected desc or asc); using the default order"@)
        } else if key == "agg"@ && agg_named(v) is None {
            Some("warning: unknown agg '"@ + v + "' (expected sum, mean, count, max or min); using sum"@)
        } else if (key == "top"@ || key == "bins"@) && number_named(v, usize::MAX as nat) is None {
            Some("warning: invalid "@ + key + " '"@ + v + "' (expected a whole number); ignoring it"@)
        } else if key == "height"@ && number_named(v, u16::MAX as nat) is None {
            Some("warning: invalid height '"@ + v + "' (expected a whole number up to 65535); ignoring it"@)
        } else {
            None
        }
    }
}

/// The warnings of a chart block's lines, in order.
pub open spec fn chart_warnings_spec(lines: Seq<Seq<char>>) -> Seq<Seq<char>>
    decreases lines.len(),
{
    if lines.len() == 0 {
        Seq::empty()
    } else {
        let w = match chart_line_warning_spec(lines.last()) {
            Some(w) => seq![w],
            None => Seq::empty(),
        };
        chart_warnings_spec(lines.drop_last()) + w
    }
}

fn chart_line_warning(line: &[char]) -> (r: Option<String>)
    ensures
        match r {
            Some(w) => chart_line_warning_spec(line@) == Some(w@),
            None => chart_line_warning_spec(line@) is None,
        },
{
    let found = find_first(line, ':');
    if found.is_none() {
        return None;
    }
    let k: usize = found.unwrap();
    let n: usize = line.len();
    let key = trim(copy_range(line, 0, k).as_slice());
    let v = trim(copy_range(line, k + 1, n).as_slice());
    let value = string_of(v.as_slice());
    let mut out = String::new();
    if key_is(key.as_slice(), "type") && chart_type_of(v.as_slice()).is_none() {
        append_str(&mut out, "warning: unknown chart type '");
        append_str(&mut out, value.as_str());
        append_str(&mut out, "' (expected line, bar, scatter, histogram or heatmap); choosing automatically");
    } else if key_is(key.as_slice(), "sort") && sort_of(v.as_slice()).is_none() {
        append_str(&mut out, "warning: unknown sort '");
        append_str(&mut out, value.as_str());
        append_str(&mut out, "' (expected desc or asc); using the default order");
    } else if key_is(key.as_slice(), "agg") && agg_of(v.as_slice()).is_none() {
        append_str(&mut out, "warning: unknown agg '");
        append_str(&mut out, value.as_str());
        append_str(&mut out, "' (expected sum, mean, count, max or min); using sum");
    } else if (key_is(key.as_slice(), "top") || key_is(key.as_slice(), "bins"))
        && parse_unsigned(v.as_slice(), usize::MAX).is_none() {
        append_str(&mut out, "warning: invalid ");
        let kname = string_of(key.as_slice());
        append_str(&mut out, kname.as_str());
        append_str(&mut out, " '");
        append_str(&mut out, value.as_str());
        append_str(&mut out, "' (expected a whole number); ignoring it");
    } else if key_is(key.as_slice(), "height") && parse_unsigned(v.as_slice(), 65535).is_none() {
        append_str(&mut out, "warning: invalid height '");
        append_str(&mut out, value.as_str());
        append_str(&mut out, "' (expected a whole number up to 65535); ignoring it");
    } else {
        return None;
    }
    Some(out)
}

/// The warnings for the values a chart block cannot use, one per such line.
pub fn chart_block_warnings(lines: &[String]) -> (r: Vec<String>)
    ensures strs(r@) == chart_warnings_spec(strs(lines@)),
{
    let mut out: Vec<String> = Vec::new();
    let mut i: usize = 0;
    assert(strs(lines@).take(0) =~= Seq::<Seq<char>>::empty());
    while i < lines.len()
        invariant
            i <= lines@.len(),
            strs(out@) == chart_warnings_spec(strs(lines@).take(i as int)),
        decreases lines@.len() - i,
    {
        let l = chars_of(lines[i].as_str());
        assert(strs(lines@).take(i + 1).drop_last() =~= strs(lines@).take(i as int));
        assert(strs(lines@).take(i + 1).last() == l@);
        let ghost before = strs(out@);
        match chart_line_warning(l.as_slice()) {
            Some(w) => {
                out.push(w);
                assert(strs(out@) =~= before + seq![chart_line_warning_spec(l@)->0]);
            },
            None => {
                assert(strs(out@) =~= before + Seq::<Seq<char>>::empty());
            },
        }
        i = i + 1;
    }
    assert(strs(lines@).take(i as int) =~= strs(lines@));
    out
}

/// Parse chart block `key: value` lines.
pub fn parse_chart_block(lines: &[String]) -> (r: ChartBlock)
    ensures r@ == chart_block_spec(strs(lines@)),
{
    let mut b = ChartBlock {
        source: String::new(),
        chart_type: None,
        x_col: None,
        y_col: None,
        color_col: None,
        title: None,
        filter: Vec::new(),
        sort: None,
        agg: None,
        top: None,
        bins: None,
        height: None,
        diff: None,
    };
    assert(b@ == empty_block()) by {
        assert(strs(b.filter@) =~= Seq::<Seq<char>>::empty());
    }
    let mut i: usize = 0;
    assert(strs(lines@).take(0) =~= Seq::<Seq<char>>::empty());
    while i < lines.len()
        invariant
            i <= lines@.len(),
            b@ == chart_block_spec(strs(lines@).take(i as int)),
        decreases lines@.len() - i,
    {
        let l = chars_of(lines[i].as_str());
        assert(strs(lines@).take(i + 1).drop_last() =~= strs(lines@).take(i as int));
        assert(strs(lines@).take(i + 1).last() == l@);
        apply_line(&mut b, l.as_slice());
        i = i + 1;
    }
    assert(strs(lines@).take(i as int) =~= strs(lines@));
    b
}


// ---------------------------------------------------------------------------
// Tables

/// `s` without its leading run of `c`.
pub open spec fn strip_start_char(s: Seq<char>, c: char) -> Seq<char>
    decreases s.len(),
{
    if s.len() > 0 && s[0] == c {
        strip_start_char(s.drop_first(), c)
    } else {
        s
    }
}

/// `s` without its trailing run of `c`.
pub open spec fn strip_end_char(s: Seq<char>, c: char) -> Seq<char>
    decreases s.len(),
{
    if s.len() > 0 && s.last() == c {
        strip_end_char(s.drop_last(), c)
    } else {
        s
    }
}

/// `str::trim_matches(c)`.
pub open spec fn trim_char(s: Seq<char>, c: char) -> Seq<char> {
    strip_end_char(strip_start_char(s, c), c)
}

/// The raw cells of a table line: the text between `|`s, outer pipes dropped.
pub open spec fn row_cells(line: Seq<char>) -> Seq<Seq<char>> {
    split_on(trim_char(line, '|'), '|')
}

/// The cells of a table row, each trimmed.
pub open spec fn table_row(line: Seq<char>) -> Seq<Seq<char>> {
    row_cells(line).map_values(|c: Seq<char>| trim_seq(c))
}

/// A separator cell: non-empty after trimming, and only `-`, `:` and spaces.
pub open spec fn is_rule_cell(cell: Seq<char>) -> bool {
    let t = trim_seq(cell);
    t.len() > 0 && forall|i: int| 0 <= i < t.len() ==> (t[i] == '-' || t[i] == ':' || t[i] == ' ')
}

/// A table separator row such as `|---|:--:|`.
pub open spec fn is_rule_row(line: Seq<char>) -> bool {
    forall|i: int| 0 <= i < row_cells(line).len() ==> is_rule_cell(#[trigger] row_cells(line)[i])
}

/// A line that belongs to a table: trimmed, it starts and ends with `|` and has
/// at least three characters.
pub open spec fn is_table_line(t: Seq<char>) -> bool {
    t.len() >= 3 && t[0] == '|' && t.last() == '|'
}

fn strip_char_bounds(s: &[char], c: char) -> (r: (usize, usize))
    ensures
        r.0 <= r.1 <= s@.len(),
        s@.subrange(r.0 as int, r.1 as int) == trim_char(s@, c),
{
    let mut a: usize = 0;
    assert(s@.subrange(0, s@.len() as int) =~= s@);
    while a < s.len() && s[a] == c
        invariant
            a <= s@.len(),
            strip_start_char(s@, c) == strip_start_char(s@.subrange(a as int, s@.len() as int), c),
        decreases s@.len() - a,
    {
        assert(s@.subrange(a as int, s@.len() as int).drop_first() =~= s@.subrange(a + 1, s@.len() as int));
        a = a + 1;
    }
    let mut b: usize = s.len();
    while b > a && s[b - 1] == c
        invariant
            a <= b <= s@.len(),
            strip_end_char(s@.subrange(a as int, s@.len() as int), c)
                == strip_end_char(s@.subrange(a as int, b as int), c),
        decreases b,
    {
        assert(s@.subrange(a as int, b as int).drop_last() =~= s@.subrange(a as int, b - 1));
        b = b - 1;
    }
    (a, b)
}

fn row_cells_of(line: &[char]) -> (r: Vec<Vec<char>>)
    ensures
        seqs(r@) == row_cells(line@),
{
    let (a, b) = strip_char_bounds(line, '|');
    let inner = copy_range(line, a, b);
    split_char(inner.as_slice(), '|')
}

fn is_rule_cell_of(cell: &[char]) -> (r: bool)
    ensures r == is_rule_cell(cell@),
{
    let t = trim(cell);
    if t.len() == 0 {
        return false;
    }
    let mut i: usize = 0;
    while i < t.len()
        invariant
            i <= t@.len(),
            t@ == trim_seq(cell@),
            forall|j: int| 0 <= j < i ==> (t@[j] == '-' || t@[j] == ':' || t@[j] == ' '),
        decreases t@.len() - i,
    {
        let c = t[i];
        if !(c == '-' || c == ':' || c == ' ') {
            return false;
        }
        i = i + 1;
    }
    true
}

/// Whether a table line is a separator row (e.g. `|---|---|`).
fn is_separator_row(line: &[char]) -> (r: bool)
    ensures r == is_rule_row(line@),
{
    let cells = row_cells_of(line);
    let mut i: usize = 0;
    while i < cells.len()
        invariant
            i <= cells@.len(),
            seqs(cells@) == row_cells(line@),
            forall|j: int| 0 <= j < i ==> is_rule_cell(#[trigger] row_cells(line@)[j]),
        decreases cells@.len() - i,
    {
        assert(seqs(cells@)[i as int] == cells@[i as int]@);
        if !is_rule_cell_of(cells[i].as_slice()) {
            return false;
        }
        i = i + 1;
    }
    true
}

/// The trimmed cells of a table row.
fn parse_table_row(line: &[char]) -> (r: Vec<String>)
    ensures strs(r@) == table_row(line@),
{
    let cells = row_cells_of(line);
    let mut out: Vec<String> = Vec::new();
    let mut i: usize = 0;
    while i < cells.len()
        invariant
            i <= cells@.len(),
            seqs(cells@) == row_cells(line@),
            strs(out@) =~= table_row(line@).take(i as int),
        decreases cells@.len() - i,
    {
        assert(seqs(cells@)[i as int] == cells@[i as int]@);
        assert(table_row(line@)[i as int] == trim_seq(cells@[i as int]@));
        let t = trim(cells[i].as_slice());
        let ghost prev = strs(out@);
        out.push(string_of(t.as_slice()));
        assert(strs(out@) =~= prev.push(t@));
        i = i + 1;
        assert(strs(out@) =~= table_row(line@).take(i as int));
    }
    assert(table_row(line@).take(i as int) =~= table_row(line@));
    out
}


// ---------------------------------------------------------------------------
// Slides

/// What the parser has gathered after some lines.
#[verifier::ext_equal]
pub struct ParseState {
    /// Finished slides.
    pub slides: Seq<SlideV>,
    /// Title of the slide being built.
    pub title: Option<Seq<char>>,
    /// Content of the slide being built.
    pub elems: Seq<ElemV>,
    pub in_chart: bool,
    pub chart_lines: Seq<Seq<char>>,
    pub in_code: bool,
    pub code_lang: Option<Seq<char>>,
    pub code_lines: Seq<Seq<char>>,
    /// The paragraph being gathered.
    pub text: Seq<char>,
    /// Table lines being gathered.
    pub table: Seq<Seq<char>>,
    /// Warnings of the chart blocks closed so far.
    pub warnings: Seq<Seq<char>>,
}

pub open spec fn initial_state() -> ParseState {
    ParseState {
        slides: Seq::empty(),
        title: None,
        elems: Seq::empty(),
        in_chart: false,
        chart_lines: Seq::empty(),
        in_code: false,
        code_lang: None,
        code_lines: Seq::empty(),
        text: Seq::empty(),
        table: Seq::empty(),
        warnings: Seq::empty(),
    }
}

/// The pending paragraph, if any, becomes a text element.
pub open spec fn flush_text_spec(s: ParseState) -> ParseState {
    if s.text.len() > 0 {
        ParseState { elems: s.elems.push(ElemV::Text(s.text)), text: Seq::empty(), ..s }
    } else {
        s
    }
}

/// The elements that gathered table lines make: one table when the second
/// line is a separator row, else one text element per line.
pub open spec fn table_elems(t: Seq<Seq<char>>) -> Seq<ElemV> {
    if t.len() >= 2 && is_rule_row(t[1]) {
        seq![ElemV::Table {
            headers: table_row(t[0]),
            rows: t.skip(2).map_values(|l: Seq<char>| table_row(l)),
        }]
    } else {
        t.map_values(|l: Seq<char>| ElemV::Text(l))
    }
}

pub open spec fn flush_table_spec(s: ParseState) -> ParseState {
    if s.table.len() == 0 {
        s
    } else {
        ParseState { elems: s.elems + table_elems(s.table), table: Seq::empty(), ..s }
    }
}

/// The slide being built is closed, if it has a title or any content.
pub open spec fn push_slide_spec(s: ParseState) -> ParseState {
    if s.title is Some || s.elems.len() > 0 {
        ParseState {
            slides: s.slides.push(SlideV { title: s.title, content: s.elems }),
            title: None,
            elems: Seq::empty(),
            ..s
        }
    } else {
        s
    }
}

/// Pending table and paragraph are flushed and the slide is closed.
pub open spec fn close_spec(s: ParseState) -> ParseState {
    push_slide_spec(flush_text_spec(flush_table_spec(s)))
}

/// Lines joined with newlines.
pub open spec fn join_lines(ls: Seq<Seq<char>>) -> Seq<char>
    decreases ls.len(),
{
    if ls.len() == 0 {
        Seq::empty()
    } else if ls.len() == 1 {
        ls[0]
    } else {
        join_lines(ls.drop_last()) + seq!['\n'] + ls.last()
    }
}

/// `item` added to a bullet list that ends the content, or as a new list.
pub open spec fn with_bullet(elems: Seq<ElemV>, item: Seq<char>) -> Seq<ElemV> {
    if elems.len() > 0 && elems.last() is Bullets {
        elems.drop_last().push(ElemV::Bullets(elems.last()->Bullets_0.push(item)))
    } else {
        elems.push(ElemV::Bullets(seq![item]))
    }
}

/// `item` added to a numbered list that ends the content, or as a new list.
pub open spec fn with_numbered(elems: Seq<ElemV>, item: Seq<char>) -> Seq<ElemV> {
    if elems.len() > 0 && elems.last() is OrderedList {
        elems.drop_last().push(ElemV::OrderedList(elems.last()->OrderedList_0.push(item)))
    } else {
        elems.push(ElemV::OrderedList(seq![item]))
    }
}

/// `item` added to a quote that ends the content, or as a new quote.
pub open spec fn with_quote(elems: Seq<ElemV>, item: Seq<char>) -> Seq<ElemV> {
    if elems.len() > 0 && elems.last() is Blockquote {
        elems.drop_last().push(ElemV::Blockquote(elems.last()->Blockquote_0.push(item)))
    } else {
        elems.push(ElemV::Blockquote(seq![item]))
    }
}

/// `s` without any number of leading `"# "`.
pub open spec fn strip_hashes(s: Seq<char>) -> Seq<char>
    decreases s.len(),
{
    if s.len() >= 2 && s[0] == '#' && s[1] == ' ' {
        strip_hashes(s.skip(2))
    } else {
        s
    }
}

/// Length of the run of ASCII digits that starts `s`.
pub open spec fn digit_run(s: Seq<char>) -> nat
    decreases s.len(),
{
    if s.len() > 0 && is_digit(s[0]) {
        1 + digit_run(s.drop_first())
    } else {
        0
    }
}

/// The text of a numbered-list line (`"12. text"`, leading whitespace allowed).
pub open spec fn numbered_item(line: Seq<char>) -> Option<Seq<char>> {
    let t = trim_start_seq(line);
    let p = digit_run(t) as int;
    if p > 0 && p + 2 <= t.len() && t[p] == '.' && t[p + 1] == ' ' {
        Some(t.skip(p + 2))
    } else {
        None
    }
}

/// The text of a quote line (`"> text"`, or a lone `">"`).
pub open spec fn quote_text(line: Seq<char>) -> Option<Seq<char>> {
    if has_prefix(line, "> "@) {
        Some(line.skip(2))
    } else if line == ">"@ {
        Some(Seq::empty())
    } else {
        None
    }
}

/// An opening fence: a `chart` block, or a code block with an optional language.
pub open spec fn open_fence_spec(s: ParseState, lang: Seq<char>) -> ParseState {
    if lang == "chart"@ {
        ParseState { in_chart: true, chart_lines: Seq::empty(), ..s }
    } else {
        ParseState {
            in_code: true,
            code_lang: if lang.len() == 0 { None } else { Some(lang) },
            code_lines: Seq::empty(),
            ..s
        }
    }
}

/// Paragraph text: a non-blank line joins the paragraph (trimmed, after one
/// space); a blank line ends it.
pub open spec fn accumulate_spec(s: ParseState, line: Seq<char>) -> ParseState {
    let t = trim_seq(line);
    if t.len() > 0 {
        ParseState { text: if s.text.len() == 0 { t } else { s.text.push(' ') + t }, ..s }
    } else {
        flush_text_spec(s)
    }
}

/// A line outside fences and tables.
pub open spec fn block_spec(s: ParseState, line: Seq<char>) -> ParseState {
    if has_prefix(line, "# "@) {
        ParseState { title: Some(strip_hashes(line)), ..push_slide_spec(flush_text_spec(s)) }
    } else if has_prefix(line, "### "@) {
        let s1 = flush_text_spec(s);
        ParseState { elems: s1.elems.push(ElemV::Heading { level: 3, text: line.skip(4) }), ..s1 }
    } else if has_prefix(line, "## "@) {
        let s1 = flush_text_spec(s);
        ParseState { elems: s1.elems.push(ElemV::Heading { level: 2, text: line.skip(3) }), ..s1 }
    } else if numbered_item(line) is Some {
        let s1 = flush_text_spec(s);
        ParseState { elems: with_numbered(s1.elems, numbered_item(line)->0), ..s1 }
    } else if has_prefix(line, "- "@) || has_prefix(line, "* "@) {
        let s1 = flush_text_spec(s);
        ParseState { elems: with_bullet(s1.elems, line.skip(2)), ..s1 }
    } else if quote_text(line) is Some {
        let s1 = flush_text_spec(s);
        ParseState { elems: with_quote(s1.elems, quote_text(line)->0), ..s1 }
    } else {
        accumulate_spec(s, line)
    }
}

/// One line of Markdown.
pub open spec fn step_spec(s: ParseState, line: Seq<char>) -> ParseState {
    let t = trim_seq(line);
    if s.in_chart {
        if t == "```"@ {
            ParseState {
                in_chart: false,
                elems: s.elems.push(ElemV::Chart(chart_block_spec(s.chart_lines))),
                chart_lines: Seq::empty(),
                warnings: s.warnings + chart_warnings_spec(s.chart_lines),
                ..s
            }
        } else {
            ParseState { chart_lines: s.chart_lines.push(line), ..s }
        }
    } else if s.in_code {
        if t == "```"@ {
            ParseState {
                in_code: false,
                elems: s.elems.push(ElemV::Code { language: s.code_lang, content: join_lines(s.code_lines) }),
                code_lang: None,
                code_lines: Seq::empty(),
                ..s
            }
        } else {
            ParseState { code_lines: s.code_lines.push(line), ..s }
        }
    } else if t == "---"@ {
        close_spec(s)
    } else if has_prefix(t, "```"@) {
        open_fence_spec(flush_text_spec(flush_table_spec(s)), trim_seq(t.skip(3)))
    } else if is_table_line(t) {
        let s1 = flush_text_spec(s);
        ParseState { table: s1.table.push(t), ..s1 }
    } else {
        block_spec(flush_table_spec(s), line)
    }
}

/// The state after the given lines.
pub open spec fn run_spec(lines: Seq<Seq<char>>) -> ParseState
    decreases lines.len(),
{
    if lines.len() == 0 {
        initial_state()
    } else {
        step_spec(run_spec(lines.drop_last()), lines.last())
    }
}

/// The slides a Markdown document makes.
pub open spec fn presentation_spec(content: Seq<char>) -> Seq<SlideV> {
    close_spec(run_spec(lines_seq(content))).slides
}


// ---------------------------------------------------------------------------
// The parser

/// Parser state while reading a Markdown document line by line.
struct ParseContext {
    slides: Vec<Slide>,
    current_title: Option<String>,
    current_elements: Vec<SlideElement>,
    in_chart_block: bool,
    chart_lines: Vec<String>,
    in_code_block: bool,
    code_language: Option<String>,
    code_lines: Vec<String>,
    text_buffer: String,
    table_lines: Vec<String>,
    warnings: Vec<String>,
}

impl View for ParseContext {
    type V = ParseState;

    closed spec fn view(&self) -> ParseState {
        ParseState {
            slides: slides_view(self.slides@),
            title: opt_view(self.current_title),
            elems: elems_view(self.current_elements@),
            in_chart: self.in_chart_block,
            chart_lines: strs(self.chart_lines@),
            in_code: self.in_code_block,
            code_lang: opt_view(self.code_language),
            code_lines: strs(self.code_lines@),
            text: self.text_buffer@,
            table: strs(self.table_lines@),
            warnings: strs(self.warnings@),
        }
    }
}

fn push_list_item(elems: &mut Vec<SlideElement>, kind: u8, item: String)
    requires kind < 3,
    ensures
        elems_view(final(elems)@) == (if kind == 0 {
            with_bullet(elems_view(old(elems)@), item@)
        } else if kind == 1 {
            with_numbered(elems_view(old(elems)@), item@)
        } else {
            with_quote(elems_view(old(elems)@), item@)
        }),
{
    let ghost e0 = elems_view(elems@);
    if elems.len() > 0 {
        let last = elems.pop().unwrap();
        assert(elems_view(elems@) =~= e0.drop_last());
        assert(last@ == e0.last());
        match last {
            SlideElement::Bullets(mut items) if kind == 0 => {
                items.push(item);
                elems.push(SlideElement::Bullets(items));
                assert(strs(items@) =~= e0.last()->Bullets_0.push(item@));
                assert(elems_view(elems@) =~= e0.drop_last().push(ElemV::Bullets(e0.last()->Bullets_0.push(item@))));
                return;
            },
            SlideElement::OrderedList(mut items) if kind == 1 => {
                items.push(item);
                elems.push(SlideElement::OrderedList(items));
                assert(strs(items@) =~= e0.last()->OrderedList_0.push(item@));
                assert(elems_view(elems@) =~= e0.drop_last().push(ElemV::OrderedList(e0.last()->OrderedList_0.push(item@))));
                return;
            },
            SlideElement::Blockquote(mut items) if kind == 2 => {
                items.push(item);
                elems.push(SlideElement::Blockquote(items));
                assert(strs(items@) =~= e0.last()->Blockquote_0.push(item@));
                assert(elems_view(elems@) =~= e0.drop_last().push(ElemV::Blockquote(e0.last()->Blockquote_0.push(item@))));
                return;
            },
            other => {
                elems.push(other);
                assert(elems_view(elems@) =~= e0);
            },
        }
    }
    let mut items: Vec<String> = Vec::new();
    items.push(item);
    assert(strs(items@) =~= seq![item@]);
    if kind == 0 {
        elems.push(SlideElement::Bullets(items));
    } else if kind == 1 {
        elems.push(SlideElement::OrderedList(items));
    } else {
        elems.push(SlideElement::Blockquote(items));
    }
    assert(elems_view(elems@) =~= e0.push(elems@.last()@));
}

/// The elements made of gathered table lines.
fn table_elements(lines: &Vec<String>) -> (r: Vec<SlideElement>)
    ensures elems_view(r@) == table_elems(strs(lines@)),
{
    let ghost t = strs(lines@);
    let n = lines.len();
    let mut out: Vec<SlideElement> = Vec::new();
    if n >= 2 && is_separator_row(chars_of(lines[1].as_str()).as_slice()) {
        let headers = parse_table_row(chars_of(lines[0].as_str()).as_slice());
        let mut rows: Vec<Vec<String>> = Vec::new();
        let mut i: usize = 2;
        while i < n
            invariant
                2 <= i <= n,
                n == lines@.len(),
                t == strs(lines@),
                rows_view(rows@) =~= t.skip(2).map_values(|l: Seq<char>| table_row(l)).take(i - 2),
            decreases n - i,
        {
            let row = parse_table_row(chars_of(lines[i].as_str()).as_slice());
            let ghost prev = rows_view(rows@);
            rows.push(row);
            assert(rows_view(rows@) =~= prev.push(strs(row@)));
            i = i + 1;
        }
        assert(t.skip(2).map_values(|l: Seq<char>| table_row(l)).take(n - 2)
            =~= t.skip(2).map_values(|l: Seq<char>| table_row(l)));
        out.push(SlideElement::Table { headers, rows });
        assert(elems_view(out@) =~= table_elems(t));
    } else {
        let mut i: usize = 0;
        while i < n
            invariant
                i <= n,
                n == lines@.len(),
                t == strs(lines@),
                elems_view(out@) =~= t.map_values(|l: Seq<char>| ElemV::Text(l)).take(i as int),
            decreases n - i,
        {
            let l = lines[i].clone();
            let ghost prev = elems_view(out@);
            out.push(SlideElement::Text(l));
            assert(elems_view(out@) =~= prev.push(ElemV::Text(t[i as int])));
            i = i + 1;
        }
        assert(t.map_values(|l: Seq<char>| ElemV::Text(l)).take(n as int)
            =~= t.map_values(|l: Seq<char>| ElemV::Text(l)));
    }
    out
}

/// Code lines joined with newlines.
fn join_code(lines: &Vec<String>) -> (r: String)
    ensures r@ == join_lines(strs(lines@)),
{
    let mut out = String::new();
    let mut i: usize = 0;
    while i < lines.len()
        invariant
            i <= lines@.len(),
            out@ == join_lines(strs(lines@).take(i as int)),
        decreases lines@.len() - i,
    {
        let ghost t = strs(lines@).take(i + 1);
        assert(t.drop_last() =~= strs(lines@).take(i as int));
        if i > 0 {
            push_char(&mut out, '\n');
        }
        let l = chars_of(lines[i].as_str());
        push_chars(&mut out, l.as_slice());
        i = i + 1;
        assert(i == 1 ==> strs(lines@).take(i as int) =~= seq![l@]);
    }
    assert(strs(lines@).take(i as int) =~= strs(lines@));
    out
}


fn push_all(dst: &mut Vec<String>, src: Vec<String>)
    ensures strs(final(dst)@) == strs(old(dst)@) + strs(src@),
{
    let mut i: usize = 0;
    while i < src.len()
        invariant
            i <= src@.len(),
            strs(dst@) == strs(old(dst)@) + strs(src@).take(i as int),
        decreases src@.len() - i,
    {
        let ghost before = strs(dst@);
        dst.push(src[i].clone());
        assert(strs(dst@) =~= before.push(src@[i as int]@));
        i = i + 1;
        assert(strs(src@).take(i as int) =~= strs(src@).take(i - 1).push(src@[i - 1]@));
    }
    assert(strs(src@).take(i as int) =~= strs(src@));
}

impl ParseContext {
    fn new() -> (r: Self)
        ensures r@ == initial_state(),
    {
        let r = ParseContext {
            slides: Vec::new(),
            current_title: None,
            current_elements: Vec::new(),
            in_chart_block: false,
            chart_lines: Vec::new(),
            in_code_block: false,
            code_language: None,
            code_lines: Vec::new(),
            text_buffer: String::new(),
            table_lines: Vec::new(),
            warnings: Vec::new(),
        };
        assert(r@ =~= initial_state());
        r
    }

    fn push_element(&mut self, e: SlideElement)
        ensures final(self)@ == (ParseState { elems: old(self)@.elems.push(e@), ..old(self)@ }),
    {
        self.current_elements.push(e);
        assert(elems_view(self.current_elements@) =~= elems_view(old(self).current_elements@).push(e@));
        assert(self@ =~= (ParseState { elems: old(self)@.elems.push(e@), ..old(self)@ }));
    }

    fn flush_text(&mut self)
        ensures final(self)@ == flush_text_spec(old(self)@),
    {
        if !self.text_buffer.as_str().is_empty() {
            let mut t = String::new();
            std::mem::swap(&mut t, &mut self.text_buffer);
            self.push_element(SlideElement::Text(t));
            assert(self@ =~= flush_text_spec(old(self)@));
        }
    }

    fn flush_table(&mut self)
        ensures final(self)@ == flush_table_spec(old(self)@),
    {
        if self.table_lines.len() == 0 {
            return;
        }
        let mut lines: Vec<String> = Vec::new();
        std::mem::swap(&mut lines, &mut self.table_lines);
        let mut extra = table_elements(&lines);
        let ghost e = elems_view(extra@);
        self.current_elements.append(&mut extra);
        assert(elems_view(self.current_elements@) =~= elems_view(old(self).current_elements@) + e);
        assert(strs(self.table_lines@) =~= Seq::<Seq<char>>::empty());
        assert(self@ =~= flush_table_spec(old(self)@));
    }

    fn push_slide(&mut self)
        ensures final(self)@ == push_slide_spec(old(self)@),
    {
        if self.current_title.is_some() || self.current_elements.len() > 0 {
            let title = self.current_title.take();
            let mut content: Vec<SlideElement> = Vec::new();
            std::mem::swap(&mut content, &mut self.current_elements);
            let slide = Slide { title, content };
            self.slides.push(slide);
            assert(slides_view(self.slides@) =~= slides_view(old(self).slides@).push(slide@));
            assert(elems_view(self.current_elements@) =~= Seq::<ElemV>::empty());
            assert(self@ =~= push_slide_spec(old(self)@));
        }
    }

    fn close(&mut self)
        ensures final(self)@ == close_spec(old(self)@),
    {
        self.flush_table();
        self.flush_text();
        self.push_slide();
    }
}


/// `line` without any number of leading `"# "`.
fn strip_hashes_of(line: &[char]) -> (r: Vec<char>)
    ensures r@ == strip_hashes(line@),
{
    let n = line.len();
    let mut i: usize = 0;
    assert(line@.skip(0) =~= line@);
    while n - i >= 2 && line[i] == '#' && line[i + 1] == ' '
        invariant
            i <= n,
            n == line@.len(),
            strip_hashes(line@) == strip_hashes(line@.skip(i as int)),
        decreases n - i,
    {
        assert(line@.skip(i as int).skip(2) =~= line@.skip(i + 2));
        i = i + 2;
    }
    let r = copy_range(line, i, n);
    assert(r@ =~= line@.skip(i as int));
    r
}

/// The text of a numbered-list line, if `line` is one.
fn numbered_item_of(line: &[char]) -> (r: Option<Vec<char>>)
    ensures
        r is Some <==> numbered_item(line@) is Some,
        r is Some ==> r->0@ == numbered_item(line@)->0,
{
    let t = trim_start(line);
    let n = t.len();
    let mut p: usize = 0;
    assert(t@.skip(0) =~= t@);
    while p < n && '0' <= t[p] && t[p] <= '9'
        invariant
            p <= n,
            n == t@.len(),
            digit_run(t@) == p + digit_run(t@.skip(p as int)),
        decreases n - p,
    {
        assert(t@.skip(p as int).drop_first() =~= t@.skip(p + 1));
        p = p + 1;
    }
    assert(digit_run(t@.skip(p as int)) == 0) by {
        if p < n {
            assert(t@.skip(p as int)[0] == t@[p as int]);
        }
    }
    if p > 0 && p < n && n - p >= 2 && t[p] == '.' && t[p + 1] == ' ' {
        let r = copy_range(t.as_slice(), p + 2, n);
        assert(r@ =~= t@.skip(p + 2));
        Some(r)
    } else {
        None
    }
}

/// Whether a trimmed line belongs to a table.
fn is_table_line_of(t: &[char]) -> (r: bool)
    ensures r == is_table_line(t@),
{
    t.len() >= 3 && t[0] == '|' && t[t.len() - 1] == '|'
}

impl ParseContext {
    fn chart_content(&mut self, line: &[char], t: &[char])
        requires
            old(self)@.in_chart,
            t@ == trim_seq(line@),
        ensures
            final(self)@ == step_spec(old(self)@, line@),
    {
        if key_is(t, "```") {
            let chart = parse_chart_block(self.chart_lines.as_slice());
            let found = chart_block_warnings(self.chart_lines.as_slice());
            push_all(&mut self.warnings, found);
            self.chart_lines.clear();
            self.in_chart_block = false;
            self.push_element(SlideElement::Chart(chart));
            assert(strs(self.chart_lines@) =~= Seq::<Seq<char>>::empty());
            assert(self@ =~= step_spec(old(self)@, line@));
        } else {
            self.chart_lines.push(string_of(line));
            assert(strs(self.chart_lines@) =~= strs(old(self).chart_lines@).push(line@));
            assert(self@ =~= step_spec(old(self)@, line@));
        }
    }

    fn code_content(&mut self, line: &[char], t: &[char])
        requires
            !old(self)@.in_chart,
            old(self)@.in_code,
            t@ == trim_seq(line@),
        ensures
            final(self)@ == step_spec(old(self)@, line@),
    {
        if key_is(t, "```") {
            let content = join_code(&self.code_lines);
            let language = self.code_language.take();
            self.code_lines.clear();
            self.in_code_block = false;
            self.push_element(SlideElement::Code { language, content });
            assert(strs(self.code_lines@) =~= Seq::<Seq<char>>::empty());
            assert(self@ =~= step_spec(old(self)@, line@));
        } else {
            self.code_lines.push(string_of(line));
            assert(strs(self.code_lines@) =~= strs(old(self).code_lines@).push(line@));
            assert(self@ =~= step_spec(old(self)@, line@));
        }
    }

    fn open_fence(&mut self, t: &[char])
        requires
            has_prefix(t@, "```"@),
        ensures
            final(self)@ == open_fence_spec(
                flush_text_spec(flush_table_spec(old(self)@)),
                trim_seq(t@.skip(3)),
            ),
    {
        proof {
            reveal_strlit("```");
        }
        self.flush_table();
        self.flush_text();
        let ghost s1 = self@;
        let n = t.len();
        let rest = copy_range(t, 3, n);
        assert(rest@ =~= t@.skip(3));
        let lang = trim(rest.as_slice());
        if key_is(lang.as_slice(), "chart") {
            self.in_chart_block = true;
            self.chart_lines.clear();
            assert(strs(self.chart_lines@) =~= Seq::<Seq<char>>::empty());
            assert(self@ =~= open_fence_spec(s1, lang@));
        } else {
            self.in_code_block = true;
            self.code_language = if lang.len() == 0 { None } else { Some(string_of(lang.as_slice())) };
            self.code_lines.clear();
            assert(strs(self.code_lines@) =~= Seq::<Seq<char>>::empty());
            assert(self@ =~= open_fence_spec(s1, lang@));
        }
    }

    fn list_item(&mut self, kind: u8, item: String)
        requires kind < 3,
        ensures
            final(self)@ == (ParseState {
                elems: if kind == 0 {
                    with_bullet(flush_text_spec(old(self)@).elems, item@)
                } else if kind == 1 {
                    with_numbered(flush_text_spec(old(self)@).elems, item@)
                } else {
                    with_quote(flush_text_spec(old(self)@).elems, item@)
                },
                ..flush_text_spec(old(self)@)
            }),
    {
        self.flush_text();
        let ghost s1 = self@;
        push_list_item(&mut self.current_elements, kind, item);
        assert(self@ =~= (ParseState { elems: elems_view(self.current_elements@), ..s1 }));
    }

    fn accumulate_text(&mut self, line: &[char])
        ensures final(self)@ == accumulate_spec(old(self)@, line@),
    {
        let t = trim(line);
        if t.len() > 0 {
            if !self.text_buffer.as_str().is_empty() {
                push_char(&mut self.text_buffer, ' ');
            }
            push_chars(&mut self.text_buffer, t.as_slice());
            assert(old(self)@.text.len() == 0 ==> self@.text =~= t@);
            assert(self@ =~= accumulate_spec(old(self)@, line@));
        } else {
            self.flush_text();
        }
    }

    fn block(&mut self, line: &[char])
        ensures final(self)@ == block_spec(old(self)@, line@),
    {
        proof {
            reveal_strlit("# ");
            reveal_strlit("### ");
            reveal_strlit("## ");
            reveal_strlit("- ");
            reveal_strlit("* ");
            reveal_strlit("> ");
        }
        let n = line.len();
        if starts_with(line, chars_of("# ").as_slice()) {
            self.flush_text();
            self.push_slide();
            let title = string_of(strip_hashes_of(line).as_slice());
            self.current_title = Some(title);
            return;
        }
        if starts_with(line, chars_of("### ").as_slice()) {
            self.flush_text();
            let text = string_of(copy_range(line, 4, n).as_slice());
            assert(text@ =~= line@.skip(4));
            self.push_element(SlideElement::Heading { level: 3, text });
            return;
        }
        if starts_with(line, chars_of("## ").as_slice()) {
            self.flush_text();
            let text = string_of(copy_range(line, 3, n).as_slice());
            assert(text@ =~= line@.skip(3));
            self.push_element(SlideElement::Heading { level: 2, text });
            return;
        }
        let num = numbered_item_of(line);
        if num.is_some() {
            let item = string_of(num.unwrap().as_slice());
            self.list_item(1, item);
            return;
        }
        if starts_with(line, chars_of("- ").as_slice()) || starts_with(line, chars_of("* ").as_slice()) {
            let item = string_of(copy_range(line, 2, n).as_slice());
            assert(item@ =~= line@.skip(2));
            self.list_item(0, item);
            return;
        }
        if starts_with(line, chars_of("> ").as_slice()) {
            let item = string_of(copy_range(line, 2, n).as_slice());
            assert(item@ =~= line@.skip(2));
            self.list_item(2, item);
            return;
        }
        if key_is(line, ">") {
            self.list_item(2, String::new());
            return;
        }
        self.accumulate_text(line);
    }

    fn process_line(&mut self, line: &[char])
        ensures final(self)@ == step_spec(old(self)@, line@),
    {
        proof {
            reveal_strlit("```");
        }
        let t = trim(line);
        if self.in_chart_block {
            self.chart_content(line, t.as_slice());
            return;
        }
        if self.in_code_block {
            self.code_content(line, t.as_slice());
            return;
        }
        if key_is(t.as_slice(), "---") {
            self.close();
            return;
        }
        if starts_with(t.as_slice(), chars_of("```").as_slice()) {
            self.open_fence(t.as_slice());
            return;
        }
        if is_table_line_of(t.as_slice()) {
            self.flush_text();
            let ghost s1 = self@;
            self.table_lines.push(string_of(t.as_slice()));
            assert(strs(self.table_lines@) =~= s1.table.push(t@));
            assert(self@ =~= (ParseState { table: s1.table.push(t@), ..s1 }));
            return;
        }
        self.flush_table();
        self.block(line);
    }

    fn finalize(self) -> (r: Presentation)
        ensures r@ == close_spec(self@).slides,
    {
        let mut ctx = self;
        ctx.close();
        Presentation { slides: ctx.slides }
    }
}

fn run_lines(content: &str) -> (ctx: ParseContext)
    ensures ctx@ == run_spec(lines_seq(content@)),
{
    let chars = chars_of(content);
    let lines = split_lines(chars.as_slice());
    let mut ctx = ParseContext::new();
    let mut i: usize = 0;
    assert(seqs(lines@).take(0) =~= Seq::<Seq<char>>::empty());
    while i < lines.len()
        invariant
            i <= lines@.len(),
            seqs(lines@) == lines_seq(content@),
            ctx@ == run_spec(seqs(lines@).take(i as int)),
        decreases lines@.len() - i,
    {
        assert(seqs(lines@).take(i + 1).drop_last() =~= seqs(lines@).take(i as int));
        assert(seqs(lines@)[i as int] == lines@[i as int]@);
        ctx.process_line(lines[i].as_slice());
        i = i + 1;
    }
    assert(seqs(lines@).take(i as int) =~= seqs(lines@));
    ctx
}

/// Parse a Markdown document into a presentation.
pub fn parse_presentation(content: &str) -> (r: Presentation)
    ensures r@ == presentation_spec(content@),
{
    run_lines(content).finalize()
}

/// The warnings of a document's closed chart blocks, in order.
pub open spec fn presentation_warnings_spec(content: Seq<char>) -> Seq<Seq<char>> {
    run_spec(lines_seq(content)).warnings
}

/// The warnings for the chart block values of a Markdown document that the
/// charts cannot use, in document order.
pub fn presentation_warnings(content: &str) -> (r: Vec<String>)
    ensures strs(r@) == presentation_warnings_spec(content@),
{
    let ctx = run_lines(content);
    ctx.warnings
}


// ---------------------------------------------------------------------------
// Laws

/// A slide with a title or some content.
pub open spec fn slide_has_substance(sl: SlideV) -> bool {
    sl.title is Some || sl.content.len() > 0
}

pub open spec fn all_slides_have_substance(slides: Seq<SlideV>) -> bool {
    forall|i: int| 0 <= i < slides.len() ==> slide_has_substance(#[trigger] slides[i])
}

proof fn lemma_close_keeps_substance(s: ParseState)
    requires all_slides_have_substance(s.slides),
    ensures all_slides_have_substance(close_spec(s).slides),
{
    let s1 = flush_text_spec(flush_table_spec(s));
    assert(s1.slides == s.slides);
    let s2 = push_slide_spec(s1);
    if s1.title is Some || s1.elems.len() > 0 {
        assert forall|i: int| 0 <= i < s2.slides.len() implies slide_has_substance(#[trigger] s2.slides[i]) by {
            if i < s1.slides.len() {
                assert(s2.slides[i] == s1.slides[i]);
            }
        }
    }
}

proof fn lemma_step_keeps_substance(s: ParseState, line: Seq<char>)
    requires all_slides_have_substance(s.slides),
    ensures all_slides_have_substance(step_spec(s, line).slides),
{
    let t = trim_seq(line);
    if s.in_chart || s.in_code {
    } else if t == "---"@ {
        lemma_close_keeps_substance(s);
    } else if has_prefix(t, "```"@) {
    } else if is_table_line(t) {
    } else {
        let s0 = flush_table_spec(s);
        assert(s0.slides == s.slides);
        if has_prefix(line, "# "@) {
            let s1 = flush_text_spec(s0);
            let s2 = push_slide_spec(s1);
            if s1.title is Some || s1.elems.len() > 0 {
                assert forall|i: int| 0 <= i < s2.slides.len() implies slide_has_substance(#[trigger] s2.slides[i]) by {
                    if i < s1.slides.len() {
                        assert(s2.slides[i] == s1.slides[i]);
                    }
                }
            }
        }
    }
}

proof fn lemma_run_keeps_substance(lines: Seq<Seq<char>>)
    ensures all_slides_have_substance(run_spec(lines).slides),
    decreases lines.len(),
{
    if lines.len() > 0 {
        lemma_run_keeps_substance(lines.drop_last());
        lemma_step_keeps_substance(run_spec(lines.drop_last()), lines.last());
    }
}

/// Every slide of a parsed presentation has a title or some content: empty
/// slides (such as those between two `---` lines) are never made.
pub proof fn law_slides_have_substance(content: Seq<char>)
    ensures all_slides_have_substance(presentation_spec(content)),
{
    lemma_run_keeps_substance(lines_seq(content));
    lemma_close_keeps_substance(run_spec(lines_seq(content)));
}


/// The keys a chart block understands.
pub open spec fn known_chart_key(key: Seq<char>) -> bool {
    key == "source"@ || key == "type"@ || key == "x"@ || key == "y"@ || key == "color"@
        || key == "title"@ || key == "where"@ || key == "sort"@ || key == "agg"@ || key == "top"@
        || key == "bins"@ || key == "height"@ || key == "diff"@
}

/// Unknown keys (and lines without a `:`) are ignored.
pub proof fn law_unknown_chart_keys_ignored(b: ChartBlockV, line: Seq<char>)
    requires
        first_index_of(line, ':') >= 0 ==> !known_chart_key(trim_seq(line.take(first_index_of(line, ':')))),
    ensures
        apply_chart_line(b, line) == b,
{
}

/// The value of a `where:` line, if `line` is one.
pub open spec fn where_value(line: Seq<char>) -> Option<Seq<char>> {
    let k = first_index_of(line, ':');
    if k >= 0 && trim_seq(line.take(k)) == "where"@ {
        Some(trim_seq(line.skip(k + 1)))
    } else {
        None
    }
}

/// The values of the `where:` lines, in order.
pub open spec fn where_values(lines: Seq<Seq<char>>) -> Seq<Seq<char>>
    decreases lines.len(),
{
    if lines.len() == 0 {
        Seq::empty()
    } else {
        match where_value(lines.last()) {
            Some(v) => where_values(lines.drop_last()).push(v),
            None => where_values(lines.drop_last()),
        }
    }
}

/// `where:` is repeatable: a chart's filters are the values of all its
/// `where:` lines, in order.
pub proof fn law_where_lines_accumulate(lines: Seq<Seq<char>>)
    ensures
        chart_block_spec(lines).filter == where_values(lines),
    decreases lines.len(),
{
    if lines.len() > 0 {
        law_where_lines_accumulate(lines.drop_last());
        reveal_strlit("source");
        reveal_strlit("type");
        reveal_strlit("x");
        reveal_strlit("y");
        reveal_strlit("color");
        reveal_strlit("title");
        reveal_strlit("where");
        // The keys tested before `where` differ from it.
        let w = "where"@;
        assert(w[0] == 'w');
        assert(w != "source"@);
        assert(w != "type"@);
        assert(w != "x"@);
        assert(w != "y"@);
        assert(w != "color"@);
        assert(w != "title"@ && "title"@[0] == 't');
    }
}


/// An unreadable `type:` value leaves the chart type to be chosen from the
/// data (it is cleared), whatever was set before.
pub proof fn law_invalid_type_falls_back(b: ChartBlockV, line: Seq<char>)
    requires
        first_index_of(line, ':') >= 0,
        trim_seq(line.take(first_index_of(line, ':'))) == "type"@,
        chart_type_named(trim_seq(line.skip(first_index_of(line, ':') + 1))) is None,
    ensures
        apply_chart_line(b, line).chart_type is None,
{
    reveal_strlit("source");
    reveal_strlit("type");
    assert("type"@.len() != "source"@.len());
}


/// The key and the value of a `key: value` line (split at the first `:`,
/// both trimmed).
pub open spec fn line_key(line: Seq<char>) -> Seq<char> {
    trim_seq(line.take(first_index_of(line, ':')))
}

pub open spec fn line_value(line: Seq<char>) -> Seq<char> {
    trim_seq(line.skip(first_index_of(line, ':') + 1))
}

proof fn lemma_key_names_differ()
    ensures
        "source"@ != "type"@, "source"@ != "x"@, "source"@ != "y"@, "source"@ != "color"@,
        "source"@ != "title"@, "source"@ != "where"@, "source"@ != "sort"@, "source"@ != "agg"@,
        "source"@ != "top"@, "source"@ != "bins"@, "source"@ != "height"@, "source"@ != "diff"@,
        "type"@ != "x"@, "type"@ != "y"@, "type"@ != "color"@, "type"@ != "title"@,
        "type"@ != "where"@, "type"@ != "sort"@, "type"@ != "agg"@, "type"@ != "top"@,
        "type"@ != "bins"@, "type"@ != "height"@, "type"@ != "diff"@,
        "x"@ != "y"@, "x"@ != "color"@, "x"@ != "title"@, "x"@ != "where"@, "x"@ != "sort"@,
        "x"@ != "agg"@, "x"@ != "top"@, "x"@ != "bins"@, "x"@ != "height"@, "x"@ != "diff"@,
        "y"@ != "color"@, "y"@ != "title"@, "y"@ != "where"@, "y"@ != "sort"@,
        "y"@ != "agg"@, "y"@ != "top"@, "y"@ != "bins"@, "y"@ != "height"@, "y"@ != "diff"@,
        "color"@ != "title"@, "color"@ != "where"@, "color"@ != "sort"@, "color"@ != "agg"@,
        "color"@ != "top"@, "color"@ != "bins"@, "color"@ != "height"@, "color"@ != "diff"@,
        "title"@ != "where"@, "title"@ != "sort"@, "title"@ != "agg"@, "title"@ != "top"@,
        "title"@ != "bins"@, "title"@ != "height"@, "title"@ != "diff"@,
        "where"@ != "sort"@, "where"@ != "agg"@, "where"@ != "top"@, "where"@ != "bins"@,
        "where"@ != "height"@, "where"@ != "diff"@,
        "sort"@ != "agg"@, "sort"@ != "top"@, "sort"@ != "bins"@, "sort"@ != "height"@,
        "sort"@ != "diff"@,
        "agg"@ != "top"@, "agg"@ != "bins"@, "agg"@ != "height"@, "agg"@ != "diff"@,
        "top"@ != "bins"@, "top"@ != "height"@, "top"@ != "diff"@,
        "bins"@ != "height"@, "bins"@ != "diff"@, "height"@ != "diff"@,
{
    reveal_strlit("source");
    reveal_strlit("type");
    reveal_strlit("x");
    reveal_strlit("y");
    reveal_strlit("color");
    reveal_strlit("title");
    reveal_strlit("where");
    reveal_strlit("sort");
    reveal_strlit("agg");
    reveal_strlit("top");
    reveal_strlit("bins");
    reveal_strlit("height");
    reveal_strlit("diff");
    assert("x"@[0] != "y"@[0]);
    assert("type"@[0] != "sort"@[0] && "type"@[0] != "bins"@[0] && "type"@[0] != "diff"@[0]);
    assert("sort"@[0] != "bins"@[0] && "sort"@[0] != "diff"@[0] && "bins"@[0] != "diff"@[0]);
    assert("color"@[0] != "title"@[0] && "color"@[0] != "where"@[0] && "title"@[0] != "where"@[0]);
    assert("agg"@[0] != "top"@[0]);
    assert("source"@[0] != "height"@[0]);
    assert("source"@.len() != "sort"@.len());
    assert("type"@.len() != "title"@.len());
}

/// A chart block is read line by line: a line without `:` or with an
/// unknown key changes nothing, and a later `source`, `x`, `y`, `color`,
/// `title`, `diff`, `type`, `sort`, `agg`, `top`, `bins` or `height` line
/// replaces what earlier lines set, with its trimmed value (`type`, `sort`
/// and `agg` values read without regard to ASCII case).
pub proof fn law_later_chart_line_wins(lines: Seq<Seq<char>>, line: Seq<char>)
    ensures ({
        let b = chart_block_spec(lines.push(line));
        let prev = chart_block_spec(lines);
        let key = line_key(line);
        let v = line_value(line);
        &&& first_index_of(line, ':') < 0 ==> b == prev
        &&& first_index_of(line, ':') >= 0 ==> {
            &&& key == "source"@ ==> b == ChartBlockV { source: v, ..prev }
            &&& key == "x"@ ==> b == ChartBlockV { x_col: Some(v), ..prev }
            &&& key == "y"@ ==> b == ChartBlockV { y_col: Some(v), ..prev }
            &&& key == "color"@ ==> b == ChartBlockV { color_col: Some(v), ..prev }
            &&& key == "title"@ ==> b == ChartBlockV { title: Some(v), ..prev }
            &&& key == "diff"@ ==> b == ChartBlockV { diff: Some(v), ..prev }
            &&& key == "where"@ ==> b == ChartBlockV { filter: prev.filter.push(v), ..prev }
            &&& key == "type"@ ==> b == ChartBlockV { chart_type: chart_type_named(v), ..prev }
            &&& key == "sort"@ ==> b == ChartBlockV { sort: sort_named(v), ..prev }
            &&& key == "agg"@ ==> b == ChartBlockV { agg: agg_named(v), ..prev }
            &&& key == "top"@ ==> b == ChartBlockV { top: as_usize(number_named(v, usize::MAX as nat)), ..prev }
            &&& key == "bins"@ ==> b == ChartBlockV { bins: as_usize(number_named(v, usize::MAX as nat)), ..prev }
            &&& key == "height"@ ==> b == ChartBlockV { height: as_u16(number_named(v, u16::MAX as nat)), ..prev }
            &&& !known_chart_key(key) ==> b == prev
        }
        &&& chart_type_named(v) == chart_type_named(ascii_lower_seq(v))
        &&& sort_named(v) == sort_named(ascii_lower_seq(v))
        &&& agg_named(v) == agg_named(ascii_lower_seq(v))
    }),
{
    assert(lines.push(line).drop_last() =~= lines);
    lemma_key_names_differ();
    let v = line_value(line);
    assert(ascii_lower_seq(ascii_lower_seq(v)) =~= ascii_lower_seq(v));
}

/// A value the chart block cannot use (`type`, `sort`, `agg`, `top`, `bins`,
/// `height`) draws a warning and leaves that setting to automatic behaviour.
pub proof fn law_unusable_value_warns(b: ChartBlockV, line: Seq<char>)
    requires
        first_index_of(line, ':') >= 0,
    ensures ({
        let key = line_key(line);
        let v = line_value(line);
        let nb = apply_chart_line(b, line);
        &&& key == "type"@ && chart_type_named(v) is None
            ==> nb.chart_type is None && chart_line_warning_spec(line) is Some
        &&& key == "sort"@ && sort_named(v) is None
            ==> nb.sort is None && chart_line_warning_spec(line) is Some
        &&& key == "agg"@ && agg_named(v) is None
            ==> nb.agg is None && chart_line_warning_spec(line) is Some
        &&& key == "top"@ && number_named(v, usize::MAX as nat) is None
            ==> nb.top is None && chart_line_warning_spec(line) is Some
        &&& key == "bins"@ && number_named(v, usize::MAX as nat) is None
            ==> nb.bins is None && chart_line_warning_spec(line) is Some
        &&& key == "height"@ && number_named(v, u16::MAX as nat) is None
            ==> nb.height is None && chart_line_warning_spec(line) is Some
    }),
{
    lemma_key_names_differ();
}


proof fn lemma_trim_end_empty(s: Seq<char>)
    requires trim_end_seq(s).len() == 0,
    ensures forall|i: int| 0 <= i < s.len() ==> is_ws(#[trigger] s[i]),
    decreases s.len(),
{
    if s.len() > 0 {
        assert(is_ws(s.last()));
        lemma_trim_end_empty(s.drop_last());
        assert forall|i: int| 0 <= i < s.len() implies is_ws(#[trigger] s[i]) by {
            if i < s.len() - 1 {
                assert(s[i] == s.drop_last()[i]);
            }
        }
    }
}

proof fn lemma_trim_start_keeps_first(s: Seq<char>)
    ensures
        trim_start_seq(s).len() > 0 ==> !is_ws(trim_start_seq(s)[0]),
        forall|i: int| 0 <= i < s.len() - trim_start_seq(s).len() ==> is_ws(#[trigger] s[i]),
        trim_start_seq(s) == s.skip(s.len() - trim_start_seq(s).len()),
        trim_start_seq(s).len() <= s.len(),
    decreases s.len(),
{
    if s.len() > 0 && is_ws(s[0]) {
        lemma_trim_start_keeps_first(s.drop_first());
        assert(s.drop_first().skip(s.drop_first().len() - trim_start_seq(s.drop_first()).len())
            =~= s.skip(s.len() - trim_start_seq(s).len()));
        assert forall|i: int| 0 <= i < s.len() - trim_start_seq(s).len() implies is_ws(#[trigger] s[i]) by {
            if i > 0 {
                assert(s[i] == s.drop_first()[i - 1]);
            }
        }
    } else {
        assert(s.skip(0) =~= s);
    }
}

/// A line that trims to nothing is all whitespace.
proof fn lemma_blank_is_all_ws(s: Seq<char>)
    requires trim_seq(s).len() == 0,
    ensures forall|i: int| 0 <= i < s.len() ==> is_ws(#[trigger] s[i]),
{
    lemma_trim_start_keeps_first(s);
    let t = trim_start_seq(s);
    if t.len() > 0 {
        lemma_trim_end_empty(t);
        assert(is_ws(t[0]));
    }
}

/// A line that opens a chart block: `` ```chart `` once trimmed.
pub open spec fn opens_chart(line: Seq<char>) -> bool {
    has_prefix(trim_seq(line), "```"@) && trim_seq(trim_seq(line).skip(3)) == "chart"@
}

#[verifier::rlimit(50)]
#[verifier::spinoff_prover]
proof fn lemma_unclosed_chart_run(before: Seq<Seq<char>>, fence: Seq<char>, rest: Seq<Seq<char>>)
    requires
        !run_spec(before).in_chart,
        !run_spec(before).in_code,
        opens_chart(fence),
        forall|i: int| 0 <= i < rest.len() ==> trim_seq(#[trigger] rest[i]) != "```"@,
    ensures
        run_spec(before.push(fence) + rest) == (ParseState {
            in_chart: true,
            chart_lines: rest,
            ..flush_text_spec(flush_table_spec(run_spec(before)))
        }),
    decreases rest.len(),
{
    if rest.len() == 0 {
        assert(before.push(fence) + rest =~= before.push(fence));
        assert(before.push(fence).drop_last() =~= before);
        reveal_strlit("```");
        reveal_strlit("---");
        let t = trim_seq(fence);
        assert(t.take(3)[0] == t[0]);
        assert("```"@[0] == '`' && "---"@[0] == '-');
        assert(t[0] == '`');
        assert(t != "---"@);
    } else {
        lemma_unclosed_chart_run(before, fence, rest.drop_last());
        assert((before.push(fence) + rest).drop_last() =~= before.push(fence) + rest.drop_last());
        assert((before.push(fence) + rest).last() == rest.last());
        assert(trim_seq(rest[rest.len() - 1]) != "```"@);
        let st = run_spec(before.push(fence) + rest.drop_last());
        assert(step_spec(st, rest.last()) =~= (ParseState {
            in_chart: true,
            chart_lines: rest,
            ..flush_text_spec(flush_table_spec(run_spec(before)))
        }));
    }
}

/// A chart block that is never closed adds nothing: the lines from its
/// opening fence to the end of the document leave the slides as the lines
/// before it make them.
pub proof fn law_unclosed_chart_block_dropped(before: Seq<Seq<char>>, fence: Seq<char>, rest: Seq<Seq<char>>)
    requires
        !run_spec(before).in_chart,
        !run_spec(before).in_code,
        opens_chart(fence),
        forall|i: int| 0 <= i < rest.len() ==> trim_seq(#[trigger] rest[i]) != "```"@,
    ensures
        close_spec(run_spec(before.push(fence) + rest)).slides == close_spec(run_spec(before)).slides,
{
    lemma_unclosed_chart_run(before, fence, rest);
}

proof fn lemma_ws_line_lacks(l: Seq<char>, p: Seq<char>)
    requires
        forall|i: int| 0 <= i < l.len() ==> is_ws(#[trigger] l[i]),
        p.len() > 0,
        !is_ws(p[0]),
    ensures
        !has_prefix(l, p),
        l != p,
{
    if has_prefix(l, p) {
        assert(l.take(p.len() as int)[0] == l[0]);
        assert(is_ws(l[0]));
    }
    if l == p {
        assert(is_ws(l[0]));
    }
}

/// A line that is blank or a `---` separator.
pub open spec fn blank_or_rule(line: Seq<char>) -> bool {
    trim_seq(line).len() == 0 || trim_seq(line) == "---"@
}

proof fn lemma_blank_lines_keep_initial(lines: Seq<Seq<char>>)
    requires forall|i: int| 0 <= i < lines.len() ==> blank_or_rule(#[trigger] lines[i]),
    ensures run_spec(lines) == initial_state(),
    decreases lines.len(),
{
    if lines.len() > 0 {
        let l = lines.last();
        assert(blank_or_rule(lines[lines.len() - 1]));
        lemma_blank_lines_keep_initial(lines.drop_last());
        let s = initial_state();
        let t = trim_seq(l);
        reveal_strlit("---");
        reveal_strlit("```");
        if t.len() == 0 {
            lemma_blank_is_all_ws(l);
            reveal_strlit("# ");
            reveal_strlit("## ");
            reveal_strlit("### ");
            reveal_strlit("- ");
            reveal_strlit("* ");
            reveal_strlit("> ");
            reveal_strlit(">");
            assert("# "@[0] == '#' && "## "@[0] == '#' && "### "@[0] == '#');
            assert("- "@[0] == '-' && "* "@[0] == '*' && "> "@[0] == '>' && ">"@[0] == '>');
            lemma_ws_line_lacks(l, "# "@);
            lemma_ws_line_lacks(l, "## "@);
            lemma_ws_line_lacks(l, "### "@);
            lemma_ws_line_lacks(l, "- "@);
            lemma_ws_line_lacks(l, "* "@);
            lemma_ws_line_lacks(l, "> "@);
            lemma_ws_line_lacks(l, ">"@);
            lemma_trim_start_keeps_first(l);
            assert(trim_start_seq(l).len() == 0) by {
                if trim_start_seq(l).len() > 0 {
                    lemma_trim_end_empty(trim_start_seq(l));
                }
            }
            assert(digit_run(trim_start_seq(l)) == 0);
            assert(numbered_item(l) is None);
            assert(quote_text(l) is None);
            assert(step_spec(s, l) =~= s);
        } else {
            assert(close_spec(s) =~= s);
        }
    }
}

/// A document of only blank lines and `---` separators has no slides.
pub proof fn law_blank_document_has_no_slides(content: Seq<char>)
    requires
        forall|i: int| 0 <= i < lines_seq(content).len() ==> blank_or_rule(#[trigger] lines_seq(content)[i]),
    ensures
        presentation_spec(content) == Seq::<SlideV>::empty(),
{
    lemma_blank_lines_keep_initial(lines_seq(content));
    assert(close_spec(initial_state()) =~= initial_state());
}


/// `s` with `p` put before its finished slides.
pub open spec fn with_slides_before(s: ParseState, p: Seq<SlideV>) -> ParseState {
    ParseState { slides: p + s.slides, ..s }
}

/// Two parser states that agree on everything but the finished slides and
/// the warnings, the first having `p` before the slides of the second.
pub open spec fn shifted(s1: ParseState, s2: ParseState, p: Seq<SlideV>) -> bool {
    s1 == ParseState { slides: p + s2.slides, warnings: s1.warnings, ..s2 }
}

proof fn lemma_close_shift(s1: ParseState, s2: ParseState, p: Seq<SlideV>)
    requires shifted(s1, s2, p),
    ensures shifted(close_spec(s1), close_spec(s2), p),
{
    let t1 = flush_text_spec(flush_table_spec(s1));
    let t2 = flush_text_spec(flush_table_spec(s2));
    assert(shifted(t1, t2, p));
    if t2.title is Some || t2.elems.len() > 0 {
        let sl = SlideV { title: t2.title, content: t2.elems };
        assert(p + t2.slides.push(sl) =~= (p + t2.slides).push(sl));
    }
}

proof fn lemma_step_shift(s1: ParseState, s2: ParseState, p: Seq<SlideV>, line: Seq<char>)
    requires shifted(s1, s2, p),
    ensures shifted(step_spec(s1, line), step_spec(s2, line), p),
{
    let t = trim_seq(line);
    if s2.in_chart || s2.in_code {
    } else if t == "---"@ {
        lemma_close_shift(s1, s2, p);
    } else if has_prefix(t, "```"@) {
    } else if is_table_line(t) {
    } else {
        let u1 = flush_table_spec(s1);
        let u2 = flush_table_spec(s2);
        assert(shifted(u1, u2, p));
        if has_prefix(line, "# "@) {
            let v1 = flush_text_spec(u1);
            let v2 = flush_text_spec(u2);
            assert(shifted(v1, v2, p));
            if v2.title is Some || v2.elems.len() > 0 {
                let sl = SlideV { title: v2.title, content: v2.elems };
                assert(p + v2.slides.push(sl) =~= (p + v2.slides).push(sl));
            }
        }
    }
}

/// The parser run from state `s` over `lines`.
pub open spec fn run_from(s: ParseState, lines: Seq<Seq<char>>) -> ParseState
    decreases lines.len(),
{
    if lines.len() == 0 {
        s
    } else {
        step_spec(run_from(s, lines.drop_last()), lines.last())
    }
}

proof fn lemma_run_from_concat(a: Seq<Seq<char>>, b: Seq<Seq<char>>)
    ensures run_spec(a + b) == run_from(run_spec(a), b),
    decreases b.len(),
{
    if b.len() == 0 {
        assert(a + b =~= a);
    } else {
        lemma_run_from_concat(a, b.drop_last());
        assert((a + b).drop_last() =~= a + b.drop_last());
        assert((a + b).last() == b.last());
    }
}

proof fn lemma_run_from_shift(s1: ParseState, s2: ParseState, p: Seq<SlideV>, lines: Seq<Seq<char>>)
    requires shifted(s1, s2, p),
    ensures shifted(run_from(s1, lines), run_from(s2, lines), p),
    decreases lines.len(),
{
    if lines.len() > 0 {
        lemma_run_from_shift(s1, s2, p, lines.drop_last());
        lemma_step_shift(run_from(s1, lines.drop_last()), run_from(s2, lines.drop_last()), p, lines.last());
    }
}

/// Outside a fence, no fence lines are pending and no code language is set.
pub open spec fn fences_clear(s: ParseState) -> bool {
    &&& !s.in_chart ==> s.chart_lines.len() == 0
    &&& !s.in_code ==> s.code_lines.len() == 0 && s.code_lang is None
}

proof fn lemma_run_fences_clear(lines: Seq<Seq<char>>)
    ensures fences_clear(run_spec(lines)),
    decreases lines.len(),
{
    if lines.len() > 0 {
        lemma_run_fences_clear(lines.drop_last());
    }
}

/// A `---` line outside fences splits a deck: the slides of the whole are
/// the slides of the part before it followed by those of the part after it.
pub proof fn law_rule_splits_deck(before: Seq<Seq<char>>, rule: Seq<char>, after: Seq<Seq<char>>)
    requires
        !run_spec(before).in_chart,
        !run_spec(before).in_code,
        trim_seq(rule) == "---"@,
    ensures
        close_spec(run_spec(before.push(rule) + after)).slides
            == close_spec(run_spec(before)).slides + close_spec(run_spec(after)).slides,
{
    let sa = run_spec(before);
    let p = close_spec(sa).slides;
    assert(before.push(rule).drop_last() =~= before);
    assert(run_spec(before.push(rule)) == close_spec(sa));
    lemma_run_fences_clear(before);
    let c = close_spec(sa);
    assert(c.title is None && c.elems.len() == 0);
    assert(shifted(c, initial_state(), p)) by {
        assert(p + Seq::<SlideV>::empty() =~= p);
        assert(c.chart_lines =~= Seq::<Seq<char>>::empty());
        assert(c.code_lines =~= Seq::<Seq<char>>::empty());
        assert(c.elems =~= Seq::<ElemV>::empty());
        assert(c.text =~= Seq::<char>::empty());
        assert(c.table =~= Seq::<Seq<char>>::empty());
    }
    lemma_run_from_concat(before.push(rule), after);
    lemma_run_from_concat(Seq::empty(), after);
    assert(Seq::<Seq<char>>::empty() + after =~= after);
    assert(run_spec(Seq::<Seq<char>>::empty()) == initial_state());
    lemma_run_from_shift(c, initial_state(), p, after);
    lemma_close_shift(run_from(c, after), run_from(initial_state(), after), p);
}


/// An `agg:` line sets the chart's aggregation to the function its value
/// names, read without regard to ASCII case: `sum`, `mean`, `count`, `max`
/// or `min` give that function, anything else none; and the aggregation set
/// always has the value (lower-cased) as its name.
pub proof fn law_agg_value_names_function(b: ChartBlockV, line: Seq<char>)
    requires
        first_index_of(line, ':') >= 0,
        line_key(line) == "agg"@,
    ensures ({
        let v = ascii_lower_seq(line_value(line));
        let a = apply_chart_line(b, line).agg;
        &&& (v == "sum"@ <==> a == Some(AggFunction::Sum))
        &&& (v == "mean"@ <==> a == Some(AggFunction::Mean))
        &&& (v == "count"@ <==> a == Some(AggFunction::Count))
        &&& (v == "max"@ <==> a == Some(AggFunction::Max))
        &&& (v == "min"@ <==> a == Some(AggFunction::Min))
        &&& (a is None <==> !(v == "sum"@ || v == "mean"@ || v == "count"@ || v == "max"@ || v == "min"@))
        &&& (a matches Some(f) ==> agg_name(f) == v)
    }),
{
    lemma_key_names_differ();
    reveal_strlit("sum");
    reveal_strlit("mean");
    reveal_strlit("count");
    reveal_strlit("max");
    reveal_strlit("min");
    assert("max"@[1] != "min"@[1]);
    assert("sum"@[0] != "max"@[0] && "sum"@[0] != "min"@[0]);
    assert("mean"@.len() != "sum"@.len() && "count"@.len() != "sum"@.len());
    assert("mean"@.len() != "count"@.len());
}

} // verus!
