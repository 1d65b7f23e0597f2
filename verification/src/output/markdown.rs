//! Markdown table output: GitHub-Flavored Markdown tables of the data.

use vstd::prelude::*;
use crate::loader::rows_view;
use crate::text::{strs, chars_of, append_str, push_char, join_with, join_strings};
use crate::output::table::shown_count;

verus! {

/// Maximum data rows printed before truncation.
pub const MARKDOWN_ROW_LIMIT: usize = 100;

/// A cell with `|` escaped and each line break (`\r\n`, `\r` or `\n`)
/// turned into `<br/>`, so that it cannot break the table.
pub open spec fn escape_cell_spec(s: Seq<char>) -> Seq<char>
    decreases s.len(),
{
    if s.len() == 0 {
        Seq::empty()
    } else if s[0] == '|' {
        seq!['\\', '|'] + escape_cell_spec(s.drop_first())
    } else if s.len() >= 2 && s[0] == '\r' && s[1] == '\n' {
        "<br/>"@ + escape_cell_spec(s.skip(2))
    } else if s[0] == '\r' || s[0] == '\n' {
        "<br/>"@ + escape_cell_spec(s.drop_first())
    } else {
        seq![s[0]] + escape_cell_spec(s.drop_first())
    }
}

/// Escapes a cell so embedded pipes and line breaks cannot break the table.
pub fn escape_cell(cell: &str) -> (r: String)
    ensures r@ == escape_cell_spec(cell@),
{
    let cs = chars_of(cell);
    let n = cs.len();
    let mut out = String::new();
    let mut i: usize = 0;
    assert(cs@.skip(0) =~= cs@);
    while i < n
        invariant
            i <= n,
            n == cs@.len(),
            cs@ == cell@,
            out@ + escape_cell_spec(cs@.skip(i as int)) == escape_cell_spec(cell@),
        decreases n - i,
    {
        let ghost rest = cs@.skip(i as int);
        assert(rest[0] == cs@[i as int]);
        assert(rest.drop_first() =~= cs@.skip(i + 1));
        let c = cs[i];
        if c == '|' {
            push_char(&mut out, '\\');
            push_char(&mut out, '|');
            i = i + 1;
        } else if c == '\r' && i + 1 < n && cs[i + 1] == '\n' {
            assert(rest[1] == cs@[i + 1]);
            assert(rest.skip(2) =~= cs@.skip(i + 2));
            append_str(&mut out, "<br/>");
            i = i + 2;
        } else if c == '\r' || c == '\n' {
            append_str(&mut out, "<br/>");
            i = i + 1;
        } else {
            push_char(&mut out, c);
            i = i + 1;
        }
        assert(out@ + escape_cell_spec(cs@.skip(i as int)) =~= escape_cell_spec(cell@));
    }
    assert(cs@.skip(i as int) =~= Seq::<char>::empty());
    assert(out@ =~= escape_cell_spec(cell@));
    out
}

/// A Markdown table row of the given cells.
pub open spec fn md_row(cells: Seq<Seq<char>>) -> Seq<char> {
    "|"@ + join_with(cells.map_values(|c: Seq<char>| " "@ + escape_cell_spec(c) + " "@), "|"@) + "|"@
}

/// The separator row under a header of `n` columns.
pub open spec fn md_rule(n: nat) -> Seq<char> {
    "|"@ + join_with(Seq::new(n, |i: int| "---"@), "|"@) + "|"@
}

/// The cells of a data row under `n` headers: missing cells are empty,
/// cells beyond the headers are left out.
pub open spec fn row_cells_under(row: Seq<Seq<char>>, n: nat) -> Seq<Seq<char>> {
    Seq::new(n, |i: int| if i < row.len() { row[i] } else { Seq::empty() })
}

/// The lines of a Markdown table of all columns, limited to `limit` rows.
pub open spec fn markdown_lines(
    headers: Seq<Seq<char>>,
    rows: Seq<Seq<Seq<char>>>,
    limit: Option<usize>,
) -> Seq<Seq<char>> {
    let shown = rows.take(shown_count(rows.len(), limit) as int);
    seq![md_row(headers), md_rule(headers.len())]
        + shown.map_values(|r: Seq<Seq<char>>| md_row(row_cells_under(r, headers.len())))
}

fn padded_cell(cell: &str) -> (r: String)
    ensures r@ == " "@ + escape_cell_spec(cell@) + " "@,
{
    let mut out = String::new();
    append_str(&mut out, " ");
    let e = escape_cell(cell);
    append_str(&mut out, e.as_str());
    append_str(&mut out, " ");
    out
}

fn md_line(cells: &[String]) -> (r: String)
    ensures r@ == md_row(strs(cells@)),
{
    let mut padded: Vec<String> = Vec::new();
    let mut i: usize = 0;
    while i < cells.len()
        invariant
            i <= cells@.len(),
            strs(padded@) =~= strs(cells@).take(i as int).map_values(
                |c: Seq<char>| " "@ + escape_cell_spec(c) + " "@,
            ),
        decreases cells@.len() - i,
    {
        let p = padded_cell(cells[i].as_str());
        let ghost prev = strs(padded@);
        padded.push(p);
        assert(strs(padded@) =~= prev.push(p@));
        assert(strs(cells@)[i as int] == cells@[i as int]@);
        i = i + 1;
    }
    assert(strs(cells@).take(i as int) =~= strs(cells@));
    let mut out = String::new();
    append_str(&mut out, "|");
    let joined = join_strings(padded.as_slice(), "|");
    append_str(&mut out, joined.as_str());
    append_str(&mut out, "|");
    out
}

fn md_rule_line(n: usize) -> (r: String)
    ensures r@ == md_rule(n as nat),
{
    let mut dashes: Vec<String> = Vec::new();
    let mut i: usize = 0;
    while i < n
        invariant
            i <= n,
            strs(dashes@) =~= Seq::new(i as nat, |k: int| "---"@),
        decreases n - i,
    {
        let mut d = String::new();
        append_str(&mut d, "---");
        let ghost prev = strs(dashes@);
        dashes.push(d);
        assert(strs(dashes@) =~= prev.push(d@));
        i = i + 1;
    }
    let mut out = String::new();
    append_str(&mut out, "|");
    let joined = join_strings(dashes.as_slice(), "|");
    append_str(&mut out, joined.as_str());
    append_str(&mut out, "|");
    out
}

fn cells_under(row: &Vec<String>, n: usize) -> (r: Vec<String>)
    ensures strs(r@) == row_cells_under(strs(row@), n as nat),
{
    let mut out: Vec<String> = Vec::new();
    let mut i: usize = 0;
    while i < n
        invariant
            i <= n,
            strs(out@) =~= row_cells_under(strs(row@), n as nat).take(i as int),
        decreases n - i,
    {
        let ghost prev = strs(out@);
        if i < row.len() {
            out.push(row[i].clone());
        } else {
            out.push(String::new());
        }
        assert(strs(out@) =~= prev.push(out@[i as int]@));
        i = i + 1;
    }
    assert(row_cells_under(strs(row@), n as nat).take(i as int) =~= row_cells_under(strs(row@), n as nat));
    out
}

/// The lines of a Markdown table of all columns, limited to `limit` rows.
pub fn format_markdown_all(headers: &[String], rows: &[Vec<String>], limit: Option<usize>) -> (r: Vec<String>)
    ensures strs(r@) == markdown_lines(strs(headers@), rows_view(rows@), limit),
{
    let ghost hv = strs(headers@);
    let ghost rv = rows_view(rows@);
    let n = headers.len();
    let mut out: Vec<String> = Vec::new();
    out.push(md_line(headers));
    out.push(md_rule_line(n));
    let total = rows.len();
    let shown = match limit {
        Some(k) => if k < total { k } else { total },
        None => total,
    };
    let mut j: usize = 0;
    while j < shown
        invariant
            j <= shown <= rows@.len(),
            n == headers@.len(),
            hv == strs(headers@),
            rv == rows_view(rows@),
            strs(out@) =~= seq![md_row(hv), md_rule(n as nat)]
                + rv.take(j as int).map_values(|r: Seq<Seq<char>>| md_row(row_cells_under(r, n as nat))),
        decreases shown - j,
    {
        assert(rv[j as int] == strs(rows@[j as int]@));
        let cells = cells_under(&rows[j], n);
        let line = md_line(cells.as_slice());
        let ghost prev = strs(out@);
        out.push(line);
        assert(strs(out@) =~= prev.push(line@));
        assert(rv.take(j + 1).map_values(|r: Seq<Seq<char>>| md_row(row_cells_under(r, n as nat)))
            =~= rv.take(j as int).map_values(|r: Seq<Seq<char>>| md_row(row_cells_under(r, n as nat)))
                .push(md_row(row_cells_under(rv[j as int], n as nat))));
        j = j + 1;
    }
    out
}


/// An escaped cell is a single line: no carriage return or line feed survives.
pub proof fn law_escaped_cell_is_one_line(s: Seq<char>)
    ensures
        forall|i: int| 0 <= i < escape_cell_spec(s).len() ==> {
            let c = #[trigger] escape_cell_spec(s)[i];
            c != '\n' && c != '\r'
        },
    decreases s.len(),
{
    reveal_strlit("<br/>");
    if s.len() > 0 {
        let (head, rest) = if s[0] == '|' {
            (seq!['\\', '|'], s.drop_first())
        } else if s.len() >= 2 && s[0] == '\r' && s[1] == '\n' {
            ("<br/>"@, s.skip(2))
        } else if s[0] == '\r' || s[0] == '\n' {
            ("<br/>"@, s.drop_first())
        } else {
            (seq![s[0]], s.drop_first())
        };
        law_escaped_cell_is_one_line(rest);
        assert(escape_cell_spec(s) == head + escape_cell_spec(rest));
        assert forall|i: int| 0 <= i < escape_cell_spec(s).len() implies {
            let c = #[trigger] escape_cell_spec(s)[i];
            c != '\n' && c != '\r'
        } by {
            if i >= head.len() {
                assert(escape_cell_spec(s)[i] == escape_cell_spec(rest)[i - head.len()]);
            }
        }
    }
}


/// The lines of a two-column Markdown table of labels and their (formatted)
/// values: header, separator, then one row per label that has a value.
pub open spec fn md_two_col_spec(
    x_label: Seq<char>,
    y_label: Seq<char>,
    labels: Seq<Seq<char>>,
    values: Seq<Seq<char>>,
) -> Seq<Seq<char>> {
    let n = if labels.len() < values.len() { labels.len() } else { values.len() };
    seq![
        "| "@ + escape_cell_spec(x_label) + " | "@ + escape_cell_spec(y_label) + " |"@,
        "|---|---|"@
    ] + Seq::new(n, |i: int| "| "@ + escape_cell_spec(labels[i]) + " | "@ + values[i] + " |"@)
}

fn md_pair(a: &str, b: &str, escape_b: bool) -> (r: String)
    ensures
        r@ == "| "@ + escape_cell_spec(a@) + " | "@ + (if escape_b { escape_cell_spec(b@) } else { b@ }) + " |"@,
{
    let mut out = String::new();
    append_str(&mut out, "| ");
    let ea = escape_cell(a);
    append_str(&mut out, ea.as_str());
    append_str(&mut out, " | ");
    if escape_b {
        let eb = escape_cell(b);
        append_str(&mut out, eb.as_str());
    } else {
        append_str(&mut out, b);
    }
    append_str(&mut out, " |");
    out
}

/// The lines of a two-column Markdown table: the aggregated values of a bar
/// chart, already formatted, beside their labels.
pub fn two_col_markdown_lines(x_label: &str, y_label: &str, labels: &[String], values: &[String]) -> (r: Vec<String>)
    ensures strs(r@) == md_two_col_spec(x_label@, y_label@, strs(labels@), strs(values@)),
{
    let n: usize = if labels.len() < values.len() { labels.len() } else { values.len() };
    let mut out: Vec<String> = Vec::new();
    out.push(md_pair(x_label, y_label, true));
    out.push("|---|---|".to_owned());
    let ghost body = Seq::new(n as nat, |j: int| "| "@ + escape_cell_spec(strs(labels@)[j]) + " | "@ + strs(values@)[j] + " |"@);
    let ghost head = strs(out@);
    let mut k: usize = 0;
    while k < n
        invariant
            k <= n,
            n <= labels@.len(),
            n <= values@.len(),
            body == Seq::new(n as nat, |j: int| "| "@ + escape_cell_spec(strs(labels@)[j]) + " | "@ + strs(values@)[j] + " |"@),
            strs(out@) == head + body.take(k as int),
        decreases n - k,
    {
        let line = md_pair(labels[k].as_str(), values[k].as_str(), false);
        let ghost before = strs(out@);
        out.push(line);
        assert(strs(out@) =~= before.push(line@));
        k = k + 1;
        assert(body.take(k as int) =~= body.take(k - 1).push(body[k - 1]));
    }
    assert(body.take(k as int) =~= body);
    assert(strs(out@) =~= md_two_col_spec(x_label@, y_label@, strs(labels@), strs(values@)));
    out
}

} // verus!
