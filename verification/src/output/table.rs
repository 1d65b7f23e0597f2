//! Plain text tables: column widths, aggregated headers, and the lines of a
//! table of all columns.

use vstd::prelude::*;
use vstd::utf8::encode_utf8;
use crate::chart::AggFunction;
use crate::loader::rows_view;
use crate::text::{strs, append_str, push_char};

verus! {

/// Maximum data rows printed before truncation.
pub const TABLE_ROW_LIMIT: usize = 100;

/// Length of `s` in bytes, as `str::len` reports it (the UTF-8 length).
pub open spec fn str_len(s: Seq<char>) -> nat {
    (encode_utf8(s).len() as usize) as nat
}

/// The width of column `idx`: the longest value in it, in bytes, and at
/// least `min` (rows without the column count as empty).
pub open spec fn col_width_spec(rows: Seq<Seq<Seq<char>>>, idx: int, min: nat) -> nat
    decreases rows.len(),
{
    if rows.len() == 0 {
        min
    } else {
        let w = col_width_spec(rows.drop_last(), idx, min);
        let l = if 0 <= idx < rows.last().len() { str_len(rows.last()[idx]) } else { 0 };
        if l > w {
            l
        } else {
            w
        }
    }
}

/// Column display width computed from the data.
pub fn col_width(rows: &[Vec<String>], idx: usize, min: usize) -> (r: usize)
    ensures r == col_width_spec(rows_view(rows@), idx as int, min as nat),
{
    let ghost rv = rows_view(rows@);
    let mut w = min;
    let mut i: usize = 0;
    assert(rv.take(0) =~= Seq::<Seq<Seq<char>>>::empty());
    while i < rows.len()
        invariant
            i <= rows@.len(),
            rv == rows_view(rows@),
            w == col_width_spec(rv.take(i as int), idx as int, min as nat),
        decreases rows@.len() - i,
    {
        assert(rv.take(i + 1).drop_last() =~= rv.take(i as int));
        assert(rv.take(i + 1).last() == strs(rows@[i as int]@));
        if idx < rows[i].len() {
            assert(strs(rows@[i as int]@)[idx as int] == rows@[i as int]@[idx as int]@);
            let l = rows[i][idx].as_str().len();
            if l > w {
                w = l;
            }
        }
        i = i + 1;
    }
    assert(rv.take(i as int) =~= rv);
    w
}

/// The header of an aggregated column: the column for a sum, else `agg(column)`.
pub open spec fn agg_header_spec(y_label: Seq<char>, agg: AggFunction) -> Seq<char> {
    match agg {
        AggFunction::Sum => y_label,
        AggFunction::Mean => "mean("@ + y_label + ")"@,
        AggFunction::Count => "count("@ + y_label + ")"@,
        AggFunction::Max => "max("@ + y_label + ")"@,
        AggFunction::Min => "min("@ + y_label + ")"@,
    }
}

/// Header for an aggregated column: `revenue` for sum, `mean(revenue)` otherwise.
pub fn agg_header(y_label: &str, agg: AggFunction) -> (r: String)
    ensures r@ == agg_header_spec(y_label@, agg),
{
    let mut out = String::new();
    match agg {
        AggFunction::Sum => {
            append_str(&mut out, y_label);
            assert(out@ =~= y_label@);
            return out;
        },
        AggFunction::Mean => append_str(&mut out, "mean("),
        AggFunction::Count => append_str(&mut out, "count("),
        AggFunction::Max => append_str(&mut out, "max("),
        AggFunction::Min => append_str(&mut out, "min("),
    }
    append_str(&mut out, y_label);
    append_str(&mut out, ")");
    out
}

/// `n` copies of `c`.
pub open spec fn repeat_char(c: char, n: nat) -> Seq<char> {
    Seq::new(n, |i: int| c)
}

/// `s` padded with spaces on the right to `w` characters (`{:<w$}`).
pub open spec fn pad_right(s: Seq<char>, w: nat) -> Seq<char> {
    if s.len() < w {
        s + repeat_char(' ', (w - s.len()) as nat)
    } else {
        s
    }
}

/// Cells padded to their widths and separated by two spaces; a cell past
/// the known widths is padded to five.
pub open spec fn table_line(cells: Seq<Seq<char>>, widths: Seq<nat>) -> Seq<char>
    decreases cells.len(),
{
    if cells.len() == 0 {
        Seq::empty()
    } else {
        let i = cells.len() - 1;
        let w = if i < widths.len() { widths[i] } else { 5 };
        let cell = pad_right(cells.last(), w);
        let prev = table_line(cells.drop_last(), widths);
        if i == 0 {
            cell
        } else {
            prev + "  "@ + cell
        }
    }
}

/// The rule under the header: a run of `-` per column, each followed by two spaces.
pub open spec fn rule_line(widths: Seq<nat>) -> Seq<char>
    decreases widths.len(),
{
    if widths.len() == 0 {
        Seq::empty()
    } else {
        rule_line(widths.drop_last()) + repeat_char('-', widths.last()) + "  "@
    }
}

/// Widths of the columns of a table of all columns: each header's column
/// width, at least the header's own length.
pub open spec fn all_widths(headers: Seq<Seq<char>>, rows: Seq<Seq<Seq<char>>>) -> Seq<nat> {
    Seq::new(headers.len(), |i: int| col_width_spec(rows, i, str_len(headers[i])))
}

/// The number of rows shown under a row limit.
pub open spec fn shown_count(total: nat, limit: Option<usize>) -> nat {
    match limit {
        Some(n) => if n < total { n as nat } else { total },
        None => total,
    }
}

/// The lines of a table of all columns: header, rule, then the shown rows.
pub open spec fn all_columns_lines(
    headers: Seq<Seq<char>>,
    rows: Seq<Seq<Seq<char>>>,
    limit: Option<usize>,
) -> Seq<Seq<char>> {
    let widths = all_widths(headers, rows);
    let shown = rows.take(shown_count(rows.len(), limit) as int);
    seq![table_line(headers, widths), rule_line(widths)]
        + shown.map_values(|r: Seq<Seq<char>>| table_line(r, widths))
}

fn push_padded(out: &mut String, s: &str, w: usize)
    ensures final(out)@ == old(out)@ + pad_right(s@, w as nat),
{
    let ghost before = out@;
    append_str(out, s);
    let n = crate::text::chars_of(s).len();
    if n < w {
        let mut k: usize = n;
        while k < w
            invariant
                n <= k <= w,
                n == s@.len(),
                out@ == before + s@ + repeat_char(' ', (k - n) as nat),
            decreases w - k,
        {
            push_char(out, ' ');
            k = k + 1;
            assert(out@ =~= before + s@ + repeat_char(' ', (k - n) as nat));
        }
    } else {
        assert(out@ =~= before + pad_right(s@, w as nat));
    }
}

fn format_line(cells: &[String], widths: &[usize]) -> (r: String)
    ensures r@ == table_line(strs(cells@), widths@.map_values(|w: usize| w as nat)),
{
    let ghost ws = widths@.map_values(|w: usize| w as nat);
    let mut out = String::new();
    let mut i: usize = 0;
    assert(strs(cells@).take(0) =~= Seq::<Seq<char>>::empty());
    while i < cells.len()
        invariant
            i <= cells@.len(),
            ws == widths@.map_values(|w: usize| w as nat),
            out@ == table_line(strs(cells@).take(i as int), ws),
        decreases cells@.len() - i,
    {
        let ghost t = strs(cells@).take(i + 1);
        assert(t.drop_last() =~= strs(cells@).take(i as int));
        assert(t.last() == cells@[i as int]@);
        let w: usize = if i < widths.len() { widths[i] } else { 5 };
        if i > 0 {
            append_str(&mut out, "  ");
        }
        push_padded(&mut out, cells[i].as_str(), w);
        i = i + 1;
    }
    assert(strs(cells@).take(i as int) =~= strs(cells@));
    out
}

fn format_rule(widths: &[usize]) -> (r: String)
    ensures r@ == rule_line(widths@.map_values(|w: usize| w as nat)),
{
    let ghost ws = widths@.map_values(|w: usize| w as nat);
    let mut out = String::new();
    let mut i: usize = 0;
    assert(ws.take(0) =~= Seq::<nat>::empty());
    while i < widths.len()
        invariant
            i <= widths@.len(),
            ws == widths@.map_values(|w: usize| w as nat),
            out@ == rule_line(ws.take(i as int)),
        decreases widths@.len() - i,
    {
        assert(ws.take(i + 1).drop_last() =~= ws.take(i as int));
        let ghost before = out@;
        let w = widths[i];
        let mut k: usize = 0;
        while k < w
            invariant
                k <= w,
                out@ == before + repeat_char('-', k as nat),
            decreases w - k,
        {
            push_char(&mut out, '-');
            k = k + 1;
            assert(out@ =~= before + repeat_char('-', k as nat));
        }
        append_str(&mut out, "  ");
        i = i + 1;
    }
    assert(ws.take(i as int) =~= ws);
    out
}

/// The lines of a table of all columns, limited to `limit` rows.
pub fn format_all_columns(headers: &[String], rows: &[Vec<String>], limit: Option<usize>) -> (r: Vec<String>)
    ensures strs(r@) == all_columns_lines(strs(headers@), rows_view(rows@), limit),
{
    let ghost hv = strs(headers@);
    let ghost rv = rows_view(rows@);
    let mut widths: Vec<usize> = Vec::new();
    let mut i: usize = 0;
    while i < headers.len()
        invariant
            i <= headers@.len(),
            hv == strs(headers@),
            rv == rows_view(rows@),
            widths@.map_values(|w: usize| w as nat) =~= all_widths(hv, rv).take(i as int),
        decreases headers@.len() - i,
    {
        assert(hv[i as int] == headers@[i as int]@);
        let hl = headers[i].as_str().len();
        assert(hl as nat == str_len(hv[i as int]));
        let w = col_width(rows, i, hl);
        assert(w as nat == all_widths(hv, rv)[i as int]);
        let ghost prevw = widths@.map_values(|w: usize| w as nat);
        widths.push(w);
        assert(widths@.map_values(|w: usize| w as nat) =~= prevw.push(w as nat));
        i = i + 1;
        assert(widths@.map_values(|w: usize| w as nat) =~= all_widths(hv, rv).take(i as int));
    }
    assert(all_widths(hv, rv).take(i as int) =~= all_widths(hv, rv));
    let ghost ws = all_widths(hv, rv);
    let mut out: Vec<String> = Vec::new();
    out.push(format_line(headers, widths.as_slice()));
    out.push(format_rule(widths.as_slice()));
    let total = rows.len();
    let shown = match limit {
        Some(n) => if n < total { n } else { total },
        None => total,
    };
    let mut j: usize = 0;
    while j < shown
        invariant
            j <= shown <= rows@.len(),
            shown as nat == shown_count(rows@.len(), limit),
            rv == rows_view(rows@),
            widths@.map_values(|w: usize| w as nat) == ws,
            strs(out@) =~= seq![table_line(hv, ws), rule_line(ws)]
                + rv.take(j as int).map_values(|r: Seq<Seq<char>>| table_line(r, ws)),
        decreases shown - j,
    {
        assert(rv[j as int] == strs(rows@[j as int]@));
        let line = format_line(rows[j].as_slice(), widths.as_slice());
        let ghost prev = strs(out@);
        out.push(line);
        assert(strs(out@) =~= prev.push(line@));
        assert(rv.take(j + 1).map_values(|r: Seq<Seq<char>>| table_line(r, ws))
            =~= rv.take(j as int).map_values(|r: Seq<Seq<char>>| table_line(r, ws)).push(table_line(rv[j as int], ws)));
        j = j + 1;
        assert(strs(out@) =~= seq![table_line(hv, ws), rule_line(ws)]
            + rv.take(j as int).map_values(|r: Seq<Seq<char>>| table_line(r, ws)));
    }
    out
}


/// A column is at least as wide as asked, and as wide as each value in it.
pub proof fn law_col_width_covers(rows: Seq<Seq<Seq<char>>>, idx: int, min: nat)
    ensures
        col_width_spec(rows, idx, min) >= min,
        forall|i: int| 0 <= i < rows.len() && 0 <= idx < (#[trigger] rows[i]).len()
            ==> col_width_spec(rows, idx, min) >= str_len(rows[i][idx]),
    decreases rows.len(),
{
    if rows.len() > 0 {
        law_col_width_covers(rows.drop_last(), idx, min);
        assert forall|i: int| 0 <= i < rows.len() && 0 <= idx < (#[trigger] rows[i]).len()
            implies col_width_spec(rows, idx, min) >= str_len(rows[i][idx]) by {
            if i < rows.len() - 1 {
                assert(rows.drop_last()[i] == rows[i]);
            }
        }
    }
}


/// `s` padded with spaces on the left to `w` characters (`{:>w$}`).
pub open spec fn pad_left(s: Seq<char>, w: nat) -> Seq<char> {
    if s.len() < w {
        repeat_char(' ', (w - s.len()) as nat) + s
    } else {
        s
    }
}

/// The longest label, in bytes; 5 when there are no labels.
pub open spec fn label_width(labels: Seq<Seq<char>>) -> nat
    decreases labels.len(),
{
    if labels.len() == 0 {
        5
    } else if labels.len() == 1 {
        str_len(labels[0])
    } else {
        let w = label_width(labels.drop_last());
        if str_len(labels.last()) > w { str_len(labels.last()) } else { w }
    }
}

/// Width of the value column of a two-column table.
pub const VALUE_WIDTH: usize = 12;

/// The lines of a two-column table of labels and their (formatted) values:
/// a header, a rule, then one line per label that has a value; labels are
/// left-aligned to the widest label or the x header, values right-aligned.
pub open spec fn two_col_lines_spec(
    x_label: Seq<char>,
    y_label: Seq<char>,
    labels: Seq<Seq<char>>,
    values: Seq<Seq<char>>,
) -> Seq<Seq<char>> {
    let lw = label_width(labels);
    let cw = if str_len(x_label) > lw { str_len(x_label) } else { lw };
    let n = if labels.len() < values.len() { labels.len() } else { values.len() };
    seq![
        pad_right(x_label, cw) + "  "@ + pad_left(y_label, 12),
        repeat_char('-', cw) + "  "@ + repeat_char('-', 12)
    ] + Seq::new(n, |i: int| pad_right(labels[i], cw) + "  "@ + pad_left(values[i], 12))
}

fn push_padded_left(out: &mut String, s: &str, w: usize)
    ensures final(out)@ == old(out)@ + pad_left(s@, w as nat),
{
    let ghost before = out@;
    let n = crate::text::chars_of(s).len();
    if n < w {
        let mut k: usize = n;
        while k < w
            invariant
                n <= k <= w,
                n == s@.len(),
                out@ == before + repeat_char(' ', (k - n) as nat),
            decreases w - k,
        {
            push_char(out, ' ');
            k = k + 1;
            assert(out@ =~= before + repeat_char(' ', (k - n) as nat));
        }
    }
    append_str(out, s);
    assert(out@ =~= before + pad_left(s@, w as nat));
}

fn push_dashes(out: &mut String, w: usize)
    ensures final(out)@ == old(out)@ + repeat_char('-', w as nat),
{
    let ghost before = out@;
    let mut k: usize = 0;
    while k < w
        invariant
            k <= w,
            out@ == before + repeat_char('-', k as nat),
        decreases w - k,
    {
        push_char(out, '-');
        k = k + 1;
        assert(out@ =~= before + repeat_char('-', k as nat));
    }
}

fn two_col_line(a: &str, b: &str, cw: usize) -> (r: String)
    ensures r@ == pad_right(a@, cw as nat) + "  "@ + pad_left(b@, 12),
{
    let mut out = String::new();
    push_padded(&mut out, a, cw);
    append_str(&mut out, "  ");
    push_padded_left(&mut out, b, VALUE_WIDTH);
    out
}

/// The lines of a two-column table: the aggregated values of a bar chart,
/// already formatted, beside their labels.
pub fn two_col_table_lines(x_label: &str, y_label: &str, labels: &[String], values: &[String]) -> (r: Vec<String>)
    ensures strs(r@) == two_col_lines_spec(x_label@, y_label@, strs(labels@), strs(values@)),
{
    let ghost ls = strs(labels@);
    let mut lw: usize = 5;
    let mut i: usize = 0;
    assert(ls.take(0) =~= Seq::<Seq<char>>::empty());
    while i < labels.len()
        invariant
            i <= labels@.len(),
            ls == strs(labels@),
            lw == label_width(ls.take(i as int)),
        decreases labels@.len() - i,
    {
        assert(ls.take(i + 1).drop_last() =~= ls.take(i as int));
        assert(ls.take(i + 1).last() == labels@[i as int]@);
        let l = labels[i].as_str().len();
        if i == 0 {
            assert(ls.take(1)[0] == labels@[0]@);
            lw = l;
        } else if l > lw {
            lw = l;
        }
        i = i + 1;
    }
    assert(ls.take(i as int) =~= ls);
    let xl = x_label.len();
    let cw: usize = if xl > lw { xl } else { lw };
    let n: usize = if labels.len() < values.len() { labels.len() } else { values.len() };
    let mut out: Vec<String> = Vec::new();
    out.push(two_col_line(x_label, y_label, cw));
    let mut rule = String::new();
    push_dashes(&mut rule, cw);
    append_str(&mut rule, "  ");
    push_dashes(&mut rule, VALUE_WIDTH);
    out.push(rule);
    let ghost body = Seq::new(n as nat, |j: int| pad_right(ls[j], cw as nat) + "  "@ + pad_left(strs(values@)[j], 12));
    let ghost head = strs(out@);
    let mut k: usize = 0;
    while k < n
        invariant
            k <= n,
            n <= labels@.len(),
            n <= values@.len(),
            ls == strs(labels@),
            body == Seq::new(n as nat, |j: int| pad_right(ls[j], cw as nat) + "  "@ + pad_left(strs(values@)[j], 12)),
            strs(out@) == head + body.take(k as int),
        decreases n - k,
    {
        let line = two_col_line(labels[k].as_str(), values[k].as_str(), cw);
        let ghost before = strs(out@);
        out.push(line);
        assert(strs(out@) =~= before.push(line@));
        k = k + 1;
        assert(body.take(k as int) =~= body.take(k - 1).push(body[k - 1]));
    }
    assert(body.take(k as int) =~= body);
    assert(strs(out@) =~= two_col_lines_spec(x_label@, y_label@, ls, strs(values@)));
    out
}

} // verus!
