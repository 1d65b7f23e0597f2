//! Fixed-width / space-aligned text.
//!
//! Column boundaries come from the header line: runs of two or more spaces
//! separate columns (so `Mounted on` stays one column); when that yields too
//! few columns, every space-separated token is a column.

use vstd::prelude::*;
use crate::text::{
    seqs, strs, ws_tokens, trim_seq, split_ws, copy_range, trim, string_of, chars_of,
    lines_seq, split_lines, trim_bounds, float_lit, is_float_literal, dec_seq, usize_chars,
    contains_char, lemma_trim_idempotent,
};
use super::{LoadedData, LoadError, rows_view};

verus! {

/// A column of a space-aligned table: where it starts in the header and its name.
#[derive(Debug)]
pub struct Column {
    pub start: usize,
    pub name: String,
}

pub open spec fn col_view(c: Column) -> (int, Seq<char>) {
    (c.start as int, c.name@)
}

pub open spec fn cols_view(v: Seq<Column>) -> Seq<(int, Seq<char>)> {
    v.map_values(|c: Column| col_view(c))
}

pub open spec fn pairs(v: Seq<(usize, usize)>) -> Seq<(int, int)> {
    v.map_values(|p: (usize, usize)| (p.0 as int, p.1 as int))
}

/// Maximal runs of characters other than `' '`, as `(start, end)` bounds.
pub open spec fn space_tokens(s: Seq<char>) -> Seq<(int, int)>
    decreases s.len(),
{
    if s.len() == 0 {
        seq![]
    } else {
        let t = space_tokens(s.drop_last());
        let i = s.len() - 1;
        if s.last() == ' ' {
            t
        } else if i > 0 && s[i - 1] != ' ' {
            t.update(t.len() - 1, (t.last().0, i + 1))
        } else {
            t.push((i, i + 1))
        }
    }
}

/// Tokens joined across single spaces: the spans between runs of two or more spaces.
pub open spec fn wide_groups(t: Seq<(int, int)>) -> Seq<(int, int)>
    decreases t.len(),
{
    if t.len() == 0 {
        seq![]
    } else {
        let g = wide_groups(t.drop_last());
        let k = t.last();
        if g.len() > 0 && k.0 == g.last().1 + 1 {
            g.update(g.len() - 1, (g.last().0, k.1))
        } else {
            g.push(k)
        }
    }
}

/// Ordered, non-empty, non-touching spans inside `[0, n)`.
pub open spec fn spans_wf(t: Seq<(int, int)>, n: int) -> bool {
    &&& forall|k: int| 0 <= k < t.len() ==> 0 <= #[trigger] t[k].0 < t[k].1 <= n
    &&& forall|k: int| 0 <= k < t.len() - 1 ==> #[trigger] t[k].1 < t[k + 1].0
}

/// The columns a header line defines: `(start, name)` pairs.
pub open spec fn detect_columns_spec(s: Seq<char>) -> Seq<(int, Seq<char>)> {
    let toks = space_tokens(s);
    let groups = wide_groups(toks);
    if groups.len() >= 2 && groups.len() + 2 >= ws_tokens(s).len() {
        groups.map_values(|g: (int, int)| (g.0, trim_seq(s.subrange(g.0, g.1))))
    } else {
        toks.map_values(|t: (int, int)| (t.0, s.subrange(t.0, t.1)))
    }
}

fn space_token_bounds(s: &[char]) -> (r: Vec<(usize, usize)>)
    ensures
        pairs(r@) == space_tokens(s@),
        spans_wf(pairs(r@), s@.len() as int),
{
    let mut out: Vec<(usize, usize)> = Vec::new();
    let mut i: usize = 0;
    assert(s@.take(0) =~= Seq::<char>::empty());
    while i < s.len()
        invariant
            i <= s@.len(),
            pairs(out@) =~= space_tokens(s@.take(i as int)),
            spans_wf(pairs(out@), i as int),
            (i > 0 && s@[i - 1] != ' ') ==> out@.len() > 0 && out@.last().1 == i,
            (i > 0 && s@[i - 1] == ' ' && out@.len() > 0) ==> out@.last().1 < i,
        decreases s@.len() - i,
    {
        let c = s[i];
        let ghost t = s@.take(i + 1);
        assert(t.drop_last() =~= s@.take(i as int));
        assert(t.last() == c);
        assert(i > 0 ==> t[i - 1] == s@[i - 1]);
        if c == ' ' {
        } else if i > 0 && s[i - 1] != ' ' {
            let last = out.pop().unwrap();
            out.push((last.0, i + 1));
        } else {
            out.push((i, i + 1));
        }
        i = i + 1;
        assert(pairs(out@) =~= space_tokens(s@.take(i as int)));
    }
    assert(s@.take(i as int) =~= s@);
    out
}

fn group_spans(t: &Vec<(usize, usize)>, Ghost(n): Ghost<int>) -> (r: Vec<(usize, usize)>)
    requires spans_wf(pairs(t@), n),
    ensures
        pairs(r@) == wide_groups(pairs(t@)),
        spans_wf(pairs(r@), n),
{
    let mut out: Vec<(usize, usize)> = Vec::new();
    let mut k: usize = 0;
    assert(pairs(t@).take(0) =~= Seq::<(int, int)>::empty());
    while k < t.len()
        invariant
            k <= t@.len(),
            spans_wf(pairs(t@), n),
            pairs(out@) =~= wide_groups(pairs(t@).take(k as int)),
            spans_wf(pairs(out@), n),
            k > 0 ==> out@.len() > 0 && out@.last().1 == t@[k - 1].1,
        decreases t@.len() - k,
    {
        let tok = t[k];
        let ghost pt = pairs(t@).take(k + 1);
        assert(pt.drop_last() =~= pairs(t@).take(k as int));
        assert(pt.last() == (tok.0 as int, tok.1 as int));
        if out.len() > 0 && tok.0 > 0 && tok.0 - 1 == out[out.len() - 1].1 {
            let last = out.pop().unwrap();
            out.push((last.0, tok.1));
        } else {
            out.push(tok);
        }
        k = k + 1;
        assert(pairs(out@) =~= wide_groups(pairs(t@).take(k as int)));
    }
    assert(pairs(t@).take(k as int) =~= pairs(t@));
    out
}

/// Column boundaries from a header line.
pub fn detect_columns(header_line: &str) -> (r: Vec<Column>)
    ensures cols_view(r@) == detect_columns_spec(header_line@),
{
    let cs = chars_of(header_line);
    detect_columns_in(cs.as_slice())
}

fn detect_columns_in(s: &[char]) -> (r: Vec<Column>)
    ensures cols_view(r@) == detect_columns_spec(s@),
{
    let toks = space_token_bounds(s);
    let groups = group_spans(&toks, Ghost(s@.len() as int));
    let token_count = split_ws(s).len();
    let mut out: Vec<Column> = Vec::new();
    if groups.len() >= 2 && (token_count <= groups.len() || token_count - groups.len() <= 2) {
        let mut k: usize = 0;
        while k < groups.len()
            invariant
                k <= groups@.len(),
                out@.len() == k,
                spans_wf(pairs(groups@), s@.len() as int),
                forall|j: int| 0 <= j < k ==> #[trigger] col_view(out@[j]) == (pairs(groups@)[j].0,
                    trim_seq(s@.subrange(pairs(groups@)[j].0, pairs(groups@)[j].1))),
            decreases groups@.len() - k,
        {
            let (a, b) = groups[k];
            assert(pairs(groups@)[k as int] == (a as int, b as int));
            let raw = copy_range(s, a, b);
            let name = string_of(trim(raw.as_slice()).as_slice());
            out.push(Column { start: a, name });
            assert(col_view(out@[k as int]) == (a as int, trim_seq(s@.subrange(a as int, b as int))));
            k = k + 1;
        }
        assert(cols_view(out@) =~= pairs(groups@).map_values(
            |g: (int, int)| (g.0, trim_seq(s@.subrange(g.0, g.1)))));
    } else {
        let mut k: usize = 0;
        while k < toks.len()
            invariant
                k <= toks@.len(),
                out@.len() == k,
                spans_wf(pairs(toks@), s@.len() as int),
                forall|j: int| 0 <= j < k ==> #[trigger] col_view(out@[j]) == (pairs(toks@)[j].0,
                    s@.subrange(pairs(toks@)[j].0, pairs(toks@)[j].1)),
            decreases toks@.len() - k,
        {
            let (a, b) = toks[k];
            assert(pairs(toks@)[k as int] == (a as int, b as int));
            let name = string_of(copy_range(s, a, b).as_slice());
            out.push(Column { start: a, name });
            assert(col_view(out@[k as int]) == (a as int, s@.subrange(a as int, b as int)));
            k = k + 1;
        }
        assert(cols_view(out@) =~= pairs(toks@).map_values(
            |t: (int, int)| (t.0, s@.subrange(t.0, t.1))));
    }
    out
}


// ---------------------------------------------------------------------------
// Splitting a data row

/// The first index at or after `g` that does not hold a space (or the length).
pub open spec fn run_end(s: Seq<char>, g: int) -> int
    decreases s.len() - g,
{
    if 0 <= g < s.len() && s[g] == ' ' {
        run_end(s, g + 1)
    } else {
        g
    }
}

/// A run of spaces met at `g` when scanning `s` from `lo` while below `hi`.
pub open spec fn is_gap_start(s: Seq<char>, lo: int, hi: int, g: int) -> bool {
    &&& lo <= g < hi
    &&& g < s.len()
    &&& s[g] == ' '
    &&& (g == lo || s[g - 1] != ' ')
}

pub open spec fn abs_diff(a: int, b: int) -> int {
    if a >= b { a - b } else { b - a }
}

/// How far a gap lies from `e`: the nearer of its first space and the character after it.
pub open spec fn gap_dist(s: Seq<char>, g: int, e: int) -> int {
    let d1 = abs_diff(run_end(s, g), e);
    let d2 = abs_diff(g, e);
    if d1 <= d2 { d1 } else { d2 }
}

/// `g` starts the gap nearest to `e` (the first such gap on ties).
pub open spec fn best_gap(s: Seq<char>, lo: int, hi: int, e: int, g: int) -> bool {
    &&& is_gap_start(s, lo, hi, g)
    &&& forall|h: int| #[trigger] is_gap_start(s, lo, hi, h) ==> gap_dist(s, h, e) >= gap_dist(s, g, e)
    &&& forall|h: int| #[trigger] is_gap_start(s, lo, hi, h) && h < g ==> gap_dist(s, h, e) > gap_dist(s, g, e)
}

/// Where the column expected at `e` starts in a data row: just after the gap
/// nearest to `e` among those met in `[lo, hi)`, or `e` (at most the row length)
/// when there is none.
pub open spec fn split_near(s: Seq<char>, lo: int, hi: int, e: int) -> int {
    if exists|g: int| best_gap(s, lo, hi, e, g) {
        run_end(s, choose|g: int| best_gap(s, lo, hi, e, g))
    } else {
        if e <= s.len() { e } else { s.len() as int }
    }
}

proof fn lemma_best_gap_unique(s: Seq<char>, lo: int, hi: int, e: int, g1: int, g2: int)
    requires
        best_gap(s, lo, hi, e, g1),
        best_gap(s, lo, hi, e, g2),
    ensures g1 == g2,
{
    if g1 < g2 {
        assert(is_gap_start(s, lo, hi, g1));
    } else if g2 < g1 {
        assert(is_gap_start(s, lo, hi, g2));
    }
}

proof fn lemma_run_end_bounds(s: Seq<char>, g: int)
    requires 0 <= g <= s.len(),
    ensures
        g <= run_end(s, g) <= s.len(),
        run_end(s, g) < s.len() ==> s[run_end(s, g)] != ' ',
        forall|h: int| g <= h < run_end(s, g) ==> s[h] == ' ',
    decreases s.len() - g,
{
    if g < s.len() && s[g] == ' ' {
        lemma_run_end_bounds(s, g + 1);
    }
}

fn usize_abs_diff(a: usize, b: usize) -> (r: usize)
    ensures r == abs_diff(a as int, b as int),
{
    if a >= b { a - b } else { b - a }
}

/// The split point nearest to `e` in `s`, looking at gaps met in `[lo, hi)`.
fn find_gap_near(s: &[char], lo: usize, hi: usize, e: usize) -> (r: usize)
    requires lo <= hi <= s@.len(),
    ensures r == split_near(s@, lo as int, hi as int, e as int),
{
    let n = s.len();
    let mut found = false;
    let mut best: usize = if e <= n { e } else { n };
    let mut best_dist: usize = 0;
    let ghost mut gbest: int = 0;
    let mut i = lo;
    while i < hi
        invariant
            lo <= i <= n,
            hi <= n,
            n == s@.len(),
            i < n && s@[i as int] == ' ' ==> (i == lo || s@[i - 1] != ' '),
            !found ==> best == (if e <= n { e } else { n }),
            !found ==> forall|h: int| #[trigger] is_gap_start(s@, lo as int, hi as int, h) ==> h >= i,
            found ==> {
                &&& best_gap_so_far(s@, lo as int, hi as int, e as int, gbest, i as int)
                &&& best == run_end(s@, gbest)
                &&& best_dist == gap_dist(s@, gbest, e as int)
            },
        decreases n - i,
    {
        if s[i] == ' ' {
            let g = i;
            proof { lemma_run_end_bounds(s@, g as int); }
            assert(is_gap_start(s@, lo as int, hi as int, g as int));
            let mut j = i;
            while j < n && s[j] == ' '
                invariant
                    g <= j <= n,
                    n == s@.len(),
                    run_end(s@, g as int) == run_end(s@, j as int),
                decreases n - j,
            {
                j = j + 1;
            }
            let d1 = usize_abs_diff(j, e);
            let d2 = usize_abs_diff(g, e);
            let d = if d1 <= d2 { d1 } else { d2 };
            assert(d == gap_dist(s@, g as int, e as int));
            proof {
                assert forall|h: int| #[trigger] is_gap_start(s@, lo as int, hi as int, h) && g < h
                    implies h >= j by {
                    if h < j {
                        assert(s@[h - 1] == ' ');
                    }
                }
            }
            if !found || d < best_dist {
                found = true;
                best = j;
                best_dist = d;
                proof { gbest = g as int; }
            }
            i = j;
        } else {
            i = i + 1;
        }
    }
    if found {
        proof {
            assert(best_gap(s@, lo as int, hi as int, e as int, gbest));
            let c = choose|g: int| best_gap(s@, lo as int, hi as int, e as int, g);
            lemma_best_gap_unique(s@, lo as int, hi as int, e as int, c, gbest);
        }
    } else {
        assert(!exists|g: int| best_gap(s@, lo as int, hi as int, e as int, g));
    }
    best
}

/// `g` is the best gap among those starting before `i`.
pub open spec fn best_gap_so_far(s: Seq<char>, lo: int, hi: int, e: int, g: int, i: int) -> bool {
    &&& is_gap_start(s, lo, hi, g)
    &&& g < i
    &&& forall|h: int| #[trigger] is_gap_start(s, lo, hi, h) && h < i ==> gap_dist(s, h, e) >= gap_dist(s, g, e)
    &&& forall|h: int| #[trigger] is_gap_start(s, lo, hi, h) && h < g ==> gap_dist(s, h, e) > gap_dist(s, g, e)
    &&& forall|h: int| #[trigger] is_gap_start(s, lo, hi, h) && h >= i ==> h >= i
}


pub open spec fn starts_of(cols: Seq<Column>) -> Seq<int> {
    cols.map_values(|c: Column| c.start as int)
}

pub open spec fn min_int(a: int, b: int) -> int {
    if a <= b { a } else { b }
}

/// The split point of every column in a data row.
pub open spec fn split_points(line: Seq<char>, starts: Seq<int>) -> Seq<int> {
    let n = line.len() as int;
    Seq::new(starts.len(), |k: int|
        if k == 0 {
            min_int(starts[0], n)
        } else {
            let e = starts[k];
            let lo = min_int(if e >= 5 { e - 5 } else { 0 }, n);
            let hi = min_int(e + 5, n);
            split_near(line, lo, hi, e)
        })
}

/// The end of the `k`-th cell: the next split point, or the end of the row.
pub open spec fn cell_end(line: Seq<char>, sp: Seq<int>, k: int) -> int {
    if k + 1 < sp.len() { min_int(sp[k + 1], line.len() as int) } else { line.len() as int }
}

/// The `k`-th cell of a row, trimmed.
pub open spec fn row_cell(line: Seq<char>, sp: Seq<int>, k: int) -> Seq<char> {
    if sp[k] >= line.len() {
        Seq::empty()
    } else {
        trim_seq(line.subrange(sp[k], cell_end(line, sp, k)))
    }
}

/// No cell of the row would start after it ends (the split points do not cross).
pub open spec fn row_ok(line: Seq<char>, starts: Seq<int>) -> bool {
    starts.len() == 0 || line.len() == 0 || {
        let sp = split_points(line, starts);
        forall|k: int| 0 <= k < sp.len() ==> #[trigger] sp[k] >= line.len() || sp[k] <= cell_end(line, sp, k)
    }
}

/// The cells of a data row for the given column starts.
pub open spec fn extract_row_spec(line: Seq<char>, starts: Seq<int>) -> Seq<Seq<char>> {
    if starts.len() == 0 {
        seq![]
    } else if line.len() == 0 {
        Seq::new(starts.len(), |k: int| Seq::<char>::empty())
    } else {
        let sp = split_points(line, starts);
        Seq::new(starts.len(), |k: int| row_cell(line, sp, k))
    }
}

/// Cuts a data row into cells, finding the actual gaps near the header's column starts.
pub fn extract_row(line: &[char], cols: &Vec<Column>) -> (r: Vec<String>)
    requires row_ok(line@, starts_of(cols@)),
    ensures strs(r@) == extract_row_spec(line@, starts_of(cols@)),
{
    let ghost starts = starts_of(cols@);
    let mut out: Vec<String> = Vec::new();
    if cols.len() == 0 {
        assert(strs(out@) =~= extract_row_spec(line@, starts));
        return out;
    }
    let n = line.len();
    if n == 0 {
        let mut k: usize = 0;
        while k < cols.len()
            invariant
                k <= cols@.len(),
                n == 0,
                out@.len() == k,
                forall|j: int| 0 <= j < k ==> #[trigger] out@[j]@ == Seq::<char>::empty(),
            decreases cols@.len() - k,
        {
            out.push(String::new());
            k = k + 1;
        }
        assert(strs(out@) =~= extract_row_spec(line@, starts));
        return out;
    }
    let ghost sp_spec = split_points(line@, starts);
    let mut sp: Vec<usize> = Vec::new();
    let first = if cols[0].start <= n { cols[0].start } else { n };
    sp.push(first);
    let mut k: usize = 1;
    while k < cols.len()
        invariant
            1 <= k <= cols@.len(),
            n == line@.len(),
            starts == starts_of(cols@),
            sp_spec == split_points(line@, starts),
            sp@.len() == k,
            forall|j: int| 0 <= j < k ==> #[trigger] sp@[j] as int == sp_spec[j],
        decreases cols@.len() - k,
    {
        let e = cols[k].start;
        let lo0 = if e >= 5 { e - 5 } else { 0 };
        let lo = if lo0 <= n { lo0 } else { n };
        let hi = if e <= n && n - e >= 5 { e + 5 } else { n };
        let split = find_gap_near(line, lo, hi, e);
        sp.push(split);
        k = k + 1;
    }
    let mut k: usize = 0;
    while k < cols.len()
        invariant
            k <= cols@.len(),
            n == line@.len(),
            n > 0,
            cols@.len() > 0,
            starts == starts_of(cols@),
            sp_spec == split_points(line@, starts),
            row_ok(line@, starts),
            sp@.len() == cols@.len(),
            forall|j: int| 0 <= j < sp@.len() ==> #[trigger] sp@[j] as int == sp_spec[j],
            out@.len() == k,
            forall|j: int| 0 <= j < k ==> #[trigger] out@[j]@ == row_cell(line@, sp_spec, j),
        decreases cols@.len() - k,
    {
        let start = sp[k];
        let end = if k + 1 < sp.len() { sp[k + 1] } else { n };
        let cell = if start >= n {
            String::new()
        } else {
            let actual_end = if end <= n { end } else { n };
            assert(sp_spec[k as int] >= n || sp_spec[k as int] <= cell_end(line@, sp_spec, k as int));
            let raw = copy_range(line, start, actual_end);
            let t = trim(raw.as_slice());
            string_of(t.as_slice())
        };
        out.push(cell);
        k = k + 1;
    }
    assert(strs(out@) =~= extract_row_spec(line@, starts));
    out
}


// ---------------------------------------------------------------------------
// Whole documents

/// Characters a separator line (`---`, `===`, `─┼─`, ...) is made of.
pub open spec fn is_sep_char(c: char) -> bool {
    c == '-' || c == '=' || c == '\u{2500}' || c == '\u{253C}' || c == '+' || c == '|' || c == ' '
}

/// A non-blank line made only of separator characters.
pub open spec fn is_separator_seq(l: Seq<char>) -> bool {
    let t = trim_seq(l);
    t.len() > 0 && forall|i: int| 0 <= i < t.len() ==> is_sep_char(#[trigger] t[i])
}

/// A line that carries data: not blank and not a separator.
pub open spec fn kept_line(l: Seq<char>) -> bool {
    trim_seq(l).len() > 0 && !is_separator_seq(l)
}

/// The lines of a space-aligned document that carry data.
pub open spec fn content_lines(c: Seq<char>) -> Seq<Seq<char>> {
    lines_seq(c).filter(|l: Seq<char>| kept_line(l))
}

/// Every whitespace-separated token reads as a number (and there is one).
pub open spec fn numeric_tokens(l: Seq<char>) -> bool {
    let t = ws_tokens(l);
    t.len() > 0 && forall|i: int| 0 <= i < t.len() ==> float_lit(#[trigger] t[i])
}

/// `col1`, `col2`, ...
pub open spec fn synthetic_headers(n: nat) -> Seq<Seq<char>> {
    Seq::new(n, |i: int| seq!['c', 'o', 'l'] + dec_seq((i + 1) as nat))
}

/// The first data line is data rather than a header.
pub open spec fn space_headerless(c: Seq<char>, no_header: bool) -> bool {
    no_header || numeric_tokens(content_lines(c)[0])
}

/// Column starts of the first data line.
pub open spec fn space_starts(c: Seq<char>) -> Seq<int> {
    detect_columns_spec(content_lines(c)[0]).map_values(|col: (int, Seq<char>)| col.0)
}

/// The lines that become rows.
pub open spec fn space_data_lines(c: Seq<char>, no_header: bool) -> Seq<Seq<char>> {
    let ls = content_lines(c);
    if ls.len() == 0 {
        seq![]
    } else if space_headerless(c, no_header) {
        ls
    } else {
        ls.drop_first()
    }
}

/// Header names of a space-aligned document.
pub open spec fn space_headers(c: Seq<char>, no_header: bool) -> Seq<Seq<char>> {
    let ls = content_lines(c);
    if ls.len() == 0 {
        seq![]
    } else if space_headerless(c, no_header) {
        synthetic_headers(detect_columns_spec(ls[0]).len())
    } else {
        detect_columns_spec(ls[0]).map_values(|col: (int, Seq<char>)| col.1)
    }
}

/// Rows of a space-aligned document.
pub open spec fn space_rows(c: Seq<char>, no_header: bool) -> Seq<Seq<Seq<char>>> {
    space_data_lines(c, no_header).map_values(|l: Seq<char>| extract_row_spec(l, space_starts(c)))
}

/// No row of the document has crossing split points.
pub open spec fn space_layout_ok(c: Seq<char>, no_header: bool) -> bool {
    let d = space_data_lines(c, no_header);
    forall|i: int| 0 <= i < d.len() ==> row_ok(#[trigger] d[i], space_starts(c))
}

/// Whether the content looks like space-aligned columns: at least two data
/// lines, a first line with neither tabs nor commas that splits into two or
/// more columns, and a second line with two or more tokens.
pub open spec fn looks_like_space_spec(c: Seq<char>) -> bool {
    let ls = content_lines(c);
    &&& ls.len() >= 2
    &&& !ls[0].contains('\t')
    &&& !ls[0].contains(',')
    &&& detect_columns_spec(ls[0]).len() >= 2
    &&& ws_tokens(ls[1]).len() >= 2
}

/// Whether a line is a separator such as `---`, `===` or `─────`.
pub fn is_separator_line(line: &str) -> (r: bool)
    ensures r == is_separator_seq(line@),
{
    let cs = chars_of(line);
    is_separator_chars(cs.as_slice())
}

fn is_separator_chars(l: &[char]) -> (r: bool)
    ensures r == is_separator_seq(l@),
{
    let (a, b) = trim_bounds(l);
    if a == b {
        return false;
    }
    let ghost t = trim_seq(l@);
    let mut i = a;
    while i < b
        invariant
            a <= i <= b <= l@.len(),
            t == l@.subrange(a as int, b as int),
            t == trim_seq(l@),
            forall|j: int| 0 <= j < i - a ==> is_sep_char(#[trigger] t[j]),
        decreases b - i,
    {
        let c = l[i];
        assert(t[i - a] == c);
        if !(c == '-' || c == '=' || c == '\u{2500}' || c == '\u{253C}' || c == '+' || c == '|' || c == ' ') {
            assert(!is_sep_char(t[(i - a) as int]));
            return false;
        }
        i = i + 1;
    }
    true
}

fn data_lines_of(c: &[char]) -> (r: Vec<Vec<char>>)
    ensures seqs(r@) == content_lines(c@),
{
    let all = split_lines(c);
    let ghost ls = lines_seq(c@);
    let ghost pred = |l: Seq<char>| kept_line(l);
    let mut out: Vec<Vec<char>> = Vec::new();
    let mut i: usize = 0;
    assert(ls.take(0) =~= Seq::<Seq<char>>::empty());
    proof { reveal_with_fuel(Seq::filter, 1); }
    while i < all.len()
        invariant
            i <= all@.len(),
            seqs(all@) == ls,
            pred == (|l: Seq<char>| kept_line(l)),
            seqs(out@) =~= ls.take(i as int).filter(pred),
        decreases all@.len() - i,
    {
        let l = all[i].as_slice();
        assert(l@ == ls[i as int]);
        assert(ls.take(i + 1).drop_last() =~= ls.take(i as int));
        proof { reveal_with_fuel(Seq::filter, 1); }
        let (a, b) = trim_bounds(l);
        let keep = a != b && !is_separator_chars(l);
        assert(keep == kept_line(l@));
        assert(ls.take(i + 1).last() == l@);
        assert(pred(ls.take(i + 1).last()) == keep);
        if keep {
            let kept = copy_range(l, 0, l.len());
            assert(kept@ =~= l@);
            out.push(kept);
        }
        i = i + 1;
        assert(seqs(out@) =~= ls.take(i as int).filter(pred));
    }
    assert(ls.take(i as int) =~= ls);
    out
}

fn tokens_numeric(l: &[char]) -> (r: bool)
    ensures r == numeric_tokens(l@),
{
    let toks = split_ws(l);
    if toks.len() == 0 {
        return false;
    }
    let mut i: usize = 0;
    while i < toks.len()
        invariant
            i <= toks@.len(),
            seqs(toks@) == ws_tokens(l@),
            forall|j: int| 0 <= j < i ==> float_lit(#[trigger] ws_tokens(l@)[j]),
        decreases toks@.len() - i,
    {
        assert(toks@[i as int]@ == ws_tokens(l@)[i as int]);
        if !is_float_literal(toks[i].as_slice()) {
            return false;
        }
        i = i + 1;
    }
    true
}

/// Whether `content` looks like space-aligned fixed-width data.
pub fn looks_like_space_format(content: &str) -> (r: bool)
    ensures r == looks_like_space_spec(content@),
{
    let c = chars_of(content);
    let ls = data_lines_of(c.as_slice());
    if ls.len() < 2 {
        return false;
    }
    let first = ls[0].as_slice();
    assert(first@ == content_lines(content@)[0]);
    if contains_char(first, '\t') || contains_char(first, ',') {
        return false;
    }
    let cols = detect_columns_in(first);
    assert(cols@.len() == cols_view(cols@).len());
    if cols.len() < 2 {
        return false;
    }
    let second = ls[1].as_slice();
    assert(second@ == content_lines(content@)[1]);
    split_ws(second).len() >= 2
}

/// `col1` ... `colN`.
fn synthetic_header_names(n: usize) -> (r: Vec<String>)
    ensures strs(r@) == synthetic_headers(n as nat),
{
    let mut out: Vec<String> = Vec::new();
    let mut i: usize = 0;
    while i < n
        invariant
            i <= n,
            out@.len() == i,
            forall|j: int| 0 <= j < i ==> #[trigger] out@[j]@ == synthetic_headers(n as nat)[j],
        decreases n - i,
    {
        let mut name = string_of(&['c', 'o', 'l']);
        let digits = usize_chars(i + 1);
        crate::text::push_chars(&mut name, digits.as_slice());
        assert(name@ =~= seq!['c', 'o', 'l'] + dec_seq((i + 1) as nat));
        out.push(name);
        i = i + 1;
    }
    assert(strs(out@) =~= synthetic_headers(n as nat));
    out
}

/// Exec check of `space_layout_ok`: every data line can be cut without crossing split points.
pub fn space_layout_is_ok(content: &str, no_header: bool) -> (r: bool)
    ensures r == space_layout_ok(content@, no_header),
{
    let c = chars_of(content);
    let ls = data_lines_of(c.as_slice());
    if ls.len() == 0 {
        return true;
    }
    let cols = detect_columns_in(ls[0].as_slice());
    let headerless = no_header || tokens_numeric(ls[0].as_slice());
    let first: usize = if headerless { 0 } else { 1 };
    let ghost d = space_data_lines(content@, no_header);
    assert(starts_of(cols@) =~= space_starts(content@));
    let mut i = first;
    while i < ls.len()
        invariant
            first <= i <= ls@.len(),
            first == (if space_headerless(content@, no_header) { 0usize } else { 1usize }),
            ls@.len() > 0,
            seqs(ls@) == content_lines(content@),
            d == space_data_lines(content@, no_header),
            starts_of(cols@) == space_starts(content@),
            forall|j: int| 0 <= j < i - first ==> row_ok(#[trigger] d[j], space_starts(content@)),
        decreases ls@.len() - i,
    {
        assert(d[i - first] == ls@[i as int]@);
        if !row_is_ok(ls[i].as_slice(), &cols) {
            return false;
        }
        i = i + 1;
    }
    true
}

fn row_is_ok(line: &[char], cols: &Vec<Column>) -> (r: bool)
    ensures r == row_ok(line@, starts_of(cols@)),
{
    if cols.len() == 0 || line.len() == 0 {
        return true;
    }
    let ghost starts = starts_of(cols@);
    let ghost sp_spec = split_points(line@, starts);
    let n = line.len();
    let mut sp: Vec<usize> = Vec::new();
    let first = if cols[0].start <= n { cols[0].start } else { n };
    sp.push(first);
    let mut k: usize = 1;
    while k < cols.len()
        invariant
            1 <= k <= cols@.len(),
            n == line@.len(),
            starts == starts_of(cols@),
            sp_spec == split_points(line@, starts),
            sp@.len() == k,
            forall|j: int| 0 <= j < k ==> #[trigger] sp@[j] as int == sp_spec[j],
        decreases cols@.len() - k,
    {
        let e = cols[k].start;
        let lo0 = if e >= 5 { e - 5 } else { 0 };
        let lo = if lo0 <= n { lo0 } else { n };
        let hi = if e <= n && n - e >= 5 { e + 5 } else { n };
        sp.push(find_gap_near(line, lo, hi, e));
        k = k + 1;
    }
    let mut k: usize = 0;
    while k < sp.len()
        invariant
            k <= sp@.len(),
            n == line@.len(),
            n > 0,
            sp@.len() == cols@.len(),
            cols@.len() > 0,
            starts == starts_of(cols@),
            sp_spec.len() == cols@.len(),
            sp_spec == split_points(line@, starts),
            forall|j: int| 0 <= j < sp@.len() ==> #[trigger] sp@[j] as int == sp_spec[j],
            forall|j: int| 0 <= j < k ==> #[trigger] sp_spec[j] >= n || sp_spec[j] <= cell_end(line@, sp_spec, j),
        decreases sp@.len() - k,
    {
        let end = if k + 1 < sp.len() { if sp[k + 1] <= n { sp[k + 1] } else { n } } else { n };
        assert(end as int == cell_end(line@, sp_spec, k as int));
        if sp[k] < n && sp[k] > end {
            assert(!(sp_spec[k as int] >= n || sp_spec[k as int] <= cell_end(line@, sp_spec, k as int)));
            return false;
        }
        k = k + 1;
    }
    true
}

/// Parses space-aligned content: headers from the first data line (or `col1`...
/// when `no_header` is set or that line is all numbers), one row per other line.
pub fn load_space(content: &str, no_header: bool) -> (r: Result<LoadedData, LoadError>)
    requires space_layout_ok(content@, no_header),
    ensures
        r is Ok,
        r->Ok_0.headers_view() == space_headers(content@, no_header),
        r->Ok_0.rows_view() == space_rows(content@, no_header),
{
    let c = chars_of(content);
    let ls = data_lines_of(c.as_slice());
    if ls.len() == 0 {
        let d = LoadedData { headers: Vec::new(), rows: Vec::new() };
        assert(d.headers_view() =~= space_headers(content@, no_header));
        assert(d.rows_view() =~= space_rows(content@, no_header));
        return Ok(d);
    }
    let cols = detect_columns_in(ls[0].as_slice());
    assert(starts_of(cols@) =~= space_starts(content@));
    let headerless = no_header || tokens_numeric(ls[0].as_slice());
    let headers = if headerless {
        synthetic_header_names(cols.len())
    } else {
        let mut hs: Vec<String> = Vec::new();
        let mut k: usize = 0;
        while k < cols.len()
            invariant
                k <= cols@.len(),
                hs@.len() == k,
                forall|j: int| 0 <= j < k ==> #[trigger] hs@[j]@ == cols@[j].name@,
            decreases cols@.len() - k,
        {
            hs.push(cols[k].name.clone());
            k = k + 1;
        }
        hs
    };
    let first: usize = if headerless { 0 } else { 1 };
    let ghost d = space_data_lines(content@, no_header);
    let mut rows: Vec<Vec<String>> = Vec::new();
    let mut i = first;
    while i < ls.len()
        invariant
            first <= i <= ls@.len(),
            first == (if space_headerless(content@, no_header) { 0usize } else { 1usize }),
            ls@.len() > 0,
            seqs(ls@) == content_lines(content@),
            d == space_data_lines(content@, no_header),
            space_layout_ok(content@, no_header),
            starts_of(cols@) == space_starts(content@),
            rows@.len() == i - first,
            forall|j: int| 0 <= j < i - first ==> #[trigger] strs(rows@[j]@)
                == extract_row_spec(d[j], space_starts(content@)),
        decreases ls@.len() - i,
    {
        assert(d[i - first] == ls@[i as int]@);
        assert(row_ok(d[i - first], space_starts(content@)));
        let row = extract_row(ls[i].as_slice(), &cols);
        rows.push(row);
        i = i + 1;
    }
    let data = LoadedData { headers, rows };
    assert(data.headers_view() =~= space_headers(content@, no_header));
    assert(data.rows_view() =~= space_rows(content@, no_header));
    Ok(data)
}


/// A first data line made only of numbers is read as data, exactly as if
/// headerless reading had been asked for, and the columns are named
/// `col1`, `col2`, ...
pub proof fn law_numeric_first_line_is_data(c: Seq<char>)
    requires
        content_lines(c).len() > 0,
        numeric_tokens(content_lines(c)[0]),
    ensures
        space_headers(c, false) == space_headers(c, true),
        space_rows(c, false) == space_rows(c, true),
        space_headers(c, false) == synthetic_headers(detect_columns_spec(content_lines(c)[0]).len()),
{
}


/// The shape of a space-aligned table: no data lines give no headers and no
/// rows; otherwise there is one row per data line after the header line (or
/// per data line when the first is data), every row has one cell per header,
/// and every cell is trimmed.
pub proof fn law_space_table_shape(c: Seq<char>, no_header: bool)
    ensures ({
        let ls = content_lines(c);
        let hs = space_headers(c, no_header);
        let rows = space_rows(c, no_header);
        &&& ls.len() == 0 ==> hs.len() == 0 && rows.len() == 0
        &&& ls.len() > 0 ==> rows.len() == ls.len() - (if space_headerless(c, no_header) { 0int } else { 1int })
        &&& forall|i: int| 0 <= i < rows.len() ==> (#[trigger] rows[i]).len() == hs.len()
        &&& forall|i: int, j: int| 0 <= i < rows.len() && 0 <= j < rows[i].len()
            ==> trim_seq(#[trigger] rows[i][j]) == rows[i][j]
    }),
{
    let ls = content_lines(c);
    let hs = space_headers(c, no_header);
    let rows = space_rows(c, no_header);
    if ls.len() > 0 {
        let starts = space_starts(c);
        assert(starts.len() == detect_columns_spec(ls[0]).len());
        assert(hs.len() == starts.len());
        assert forall|i: int| 0 <= i < rows.len() implies (#[trigger] rows[i]).len() == hs.len() by {
            assert(rows[i] == extract_row_spec(space_data_lines(c, no_header)[i], starts));
        }
        assert forall|i: int, j: int| 0 <= i < rows.len() && 0 <= j < rows[i].len()
            implies trim_seq(#[trigger] rows[i][j]) == rows[i][j] by {
            let l = space_data_lines(c, no_header)[i];
            assert(rows[i] == extract_row_spec(l, starts));
            if starts.len() > 0 && l.len() > 0 {
                let sp = split_points(l, starts);
                if sp[j] < l.len() {
                    lemma_trim_idempotent(l.subrange(sp[j], cell_end(l, sp, j)));
                }
            }
        }
    }
}


/// A line drawn as a rule: once trimmed, non-empty and made only of `-`,
/// `=`, `─`, `┼`, `+`, `|` and spaces.
pub open spec fn drawn_rule(l: Seq<char>) -> bool {
    let t = trim_seq(l);
    &&& t.len() > 0
    &&& forall|i: int| 0 <= i < t.len() ==> {
        let c = #[trigger] t[i];
        c == '-' || c == '=' || c == '\u{2500}' || c == '\u{253C}' || c == '+' || c == '|' || c == ' '
    }
}

/// Rule lines (`-----`, `=====`, `─────`, `──┼──`, `+---+`, ...) are
/// separators: they are never among the lines a space-aligned table is read
/// from, so they become neither the header nor a row.
pub proof fn law_rule_lines_are_skipped(c: Seq<char>, no_header: bool, l: Seq<char>)
    ensures
        drawn_rule(l) ==> is_separator_seq(l) && !kept_line(l),
        forall|i: int| 0 <= i < content_lines(c).len() ==> !drawn_rule(#[trigger] content_lines(c)[i]),
        forall|i: int| 0 <= i < space_data_lines(c, no_header).len()
            ==> !drawn_rule(#[trigger] space_data_lines(c, no_header)[i]),
{
    let pred = |x: Seq<char>| kept_line(x);
    assert forall|x: Seq<char>| drawn_rule(x) implies is_separator_seq(x) by {
        let t = trim_seq(x);
        assert forall|i: int| 0 <= i < t.len() implies is_sep_char(#[trigger] t[i]) by {}
    }
    let ls = content_lines(c);
    assert forall|i: int| 0 <= i < ls.len() implies !drawn_rule(#[trigger] ls[i]) by {
        lines_seq(c).lemma_filter_pred(pred, i);
        assert(kept_line(ls[i]));
    }
    let d = space_data_lines(c, no_header);
    assert forall|i: int| 0 <= i < d.len() implies !drawn_rule(#[trigger] d[i]) by {
        if ls.len() > 0 && !space_headerless(c, no_header) {
            assert(d[i] == ls[i + 1]);
        } else {
            assert(d[i] == ls[i]);
        }
    }
}

} // verus!
