//! The one-line summary printed before a chart: column hints, labels, and the
//! layout of the line within the terminal width.

use vstd::prelude::*;
use crate::chart::{AggFunction, ChartRecommendation, ChartType, opt_view, chart_type_name_spec};
use crate::oneshot::{header_index, find_header};
use crate::loader::rows_view;
use crate::text::{
    strs, dec_seq, usize_chars, push_chars, append_str, chars_of, copy_range, string_of,
    join_with, join_strings, join_first, has_substring, contains_seq,
};

verus! {

/// The name of an aggregation.
pub open spec fn agg_name(agg: AggFunction) -> Seq<char> {
    match agg {
        AggFunction::Sum => "sum"@,
        AggFunction::Mean => "mean"@,
        AggFunction::Count => "count"@,
        AggFunction::Max => "max"@,
        AggFunction::Min => "min"@,
    }
}

/// Human-readable label for an aggregation function.
pub fn agg_label(agg: AggFunction) -> (r: &'static str)
    ensures r@ == agg_name(agg),
{
    match agg {
        AggFunction::Sum => "sum",
        AggFunction::Mean => "mean",
        AggFunction::Count => "count",
        AggFunction::Max => "max",
        AggFunction::Min => "min",
    }
}

/// `s` cut to at most `max` characters, the last one an ellipsis when cut.
pub open spec fn truncate_spec(s: Seq<char>, max: nat) -> Seq<char> {
    if s.len() <= max {
        s
    } else if max <= 1 {
        seq!['…']
    } else {
        s.take(max - 1).push('…')
    }
}

/// Truncates `s` to `max_width` characters, ending in `…` when cut.
pub fn truncate_to_width(s: &str, max_width: usize) -> (r: String)
    ensures r@ == truncate_spec(s@, max_width as nat),
{
    let cs = chars_of(s);
    if cs.len() <= max_width {
        return string_of(cs.as_slice());
    }
    if max_width <= 1 {
        let mut r = String::new();
        push_chars(&mut r, &['…']);
        assert(r@ =~= seq!['…']);
        return r;
    }
    let mut keep = copy_range(cs.as_slice(), 0, max_width - 1);
    keep.push('…');
    assert(keep@ =~= s@.take(max_width - 1).push('…'));
    string_of(keep.as_slice())
}

/// The columns a recommendation uses, then the extra y columns.
pub open spec fn used_columns(
    x: Seq<char>,
    y: Option<Seq<char>>,
    color: Option<Seq<char>>,
    extra: Seq<Seq<char>>,
) -> Seq<Seq<char>> {
    let ys = match y {
        Some(v) => seq![v],
        None => Seq::empty(),
    };
    let cs = match color {
        Some(v) => seq![v],
        None => Seq::empty(),
    };
    seq![x] + ys + cs + extra
}

/// The headers not in `used`, in order.
pub open spec fn unused_columns(headers: Seq<Seq<char>>, used: Seq<Seq<char>>) -> Seq<Seq<char>>
    decreases headers.len(),
{
    if headers.len() == 0 {
        Seq::empty()
    } else {
        let p = unused_columns(headers.drop_last(), used);
        if used.contains(headers.last()) {
            p
        } else {
            p.push(headers.last())
        }
    }
}

/// The hint about columns the chart leaves out: their count, up to three
/// names (or two and `…`), and, for a single one, a command that adds it.
pub open spec fn unused_hint_spec(y: Option<Seq<char>>, unused: Seq<Seq<char>>) -> Option<Seq<char>> {
    if unused.len() == 0 {
        None
    } else {
        let names = if unused.len() <= 3 {
            join_with(unused, ", "@)
        } else {
            unused[0] + ", "@ + unused[1] + "…"@
        };
        let y_name = match y {
            Some(v) => v,
            None => Seq::empty(),
        };
        let suggestion = if unused.len() == 1 {
            if y_name.len() == 0 {
                " (try -y "@ + unused[0] + ")"@
            } else {
                " (try -y "@ + y_name + ","@ + unused[0] + " or -c "@ + unused[0] + ")"@
            }
        } else {
            Seq::empty()
        };
        Some("+"@ + dec_seq(unused.len()) + ": "@ + names + suggestion)
    }
}

pub open spec fn str_views(v: Seq<&str>) -> Seq<Seq<char>> {
    v.map_values(|s: &str| s@)
}

fn push_if_some(v: &mut Vec<String>, o: &Option<String>)
    ensures
        strs(final(v)@) == strs(old(v)@) + (match opt_view(*o) {
            Some(s) => seq![s],
            None => Seq::<Seq<char>>::empty(),
        }),
{
    match o {
        Some(s) => {
            v.push(s.clone());
            assert(strs(v@) =~= strs(old(v)@) + seq![s@]);
        },
        None => {
            assert(strs(v@) =~= strs(old(v)@) + Seq::<Seq<char>>::empty());
        },
    }
}

fn contains_string(v: &Vec<String>, s: &String) -> (r: bool)
    ensures r == strs(v@).contains(s@),
{
    let mut i: usize = 0;
    while i < v.len()
        invariant
            i <= v@.len(),
            forall|j: int| 0 <= j < i ==> strs(v@)[j] != s@,
        decreases v@.len() - i,
    {
        if v[i] == *s {
            assert(strs(v@)[i as int] == s@);
            return true;
        }
        i = i + 1;
    }
    false
}

/// Hint about unused columns, counting the extra y columns as used.
pub fn unused_columns_hint_with_extra(
    recommendation: &ChartRecommendation,
    headers: &[String],
    extra_y_names: &[&str],
) -> (r: Option<String>)
    ensures
        match r {
            Some(h) => unused_hint_spec(
                opt_view(recommendation.y_column),
                unused_columns(
                    strs(headers@),
                    used_columns(
                        recommendation.x_column@,
                        opt_view(recommendation.y_column),
                        opt_view(recommendation.color_column),
                        str_views(extra_y_names@),
                    ),
                ),
            ) == Some(h@),
            None => unused_hint_spec(
                opt_view(recommendation.y_column),
                unused_columns(
                    strs(headers@),
                    used_columns(
                        recommendation.x_column@,
                        opt_view(recommendation.y_column),
                        opt_view(recommendation.color_column),
                        str_views(extra_y_names@),
                    ),
                ),
            ) is None,
        },
{
    let ghost used_spec = used_columns(
        recommendation.x_column@,
        opt_view(recommendation.y_column),
        opt_view(recommendation.color_column),
        str_views(extra_y_names@),
    );
    let mut used: Vec<String> = Vec::new();
    used.push(recommendation.x_column.clone());
    push_if_some(&mut used, &recommendation.y_column);
    push_if_some(&mut used, &recommendation.color_column);
    let ghost base = strs(used@);
    let mut e: usize = 0;
    while e < extra_y_names.len()
        invariant
            e <= extra_y_names@.len(),
            strs(used@) == base + str_views(extra_y_names@).take(e as int),
        decreases extra_y_names@.len() - e,
    {
        let ghost prev = strs(used@);
        used.push(extra_y_names[e].to_owned());
        assert(strs(used@) =~= prev.push(extra_y_names@[e as int]@));
        e = e + 1;
        assert(strs(used@) =~= base + str_views(extra_y_names@).take(e as int));
    }
    assert(str_views(extra_y_names@).take(e as int) =~= str_views(extra_y_names@));
    assert(strs(used@) =~= used_spec);
    let mut unused: Vec<String> = Vec::new();
    let mut i: usize = 0;
    while i < headers.len()
        invariant
            i <= headers@.len(),
            strs(used@) == used_spec,
            strs(unused@) == unused_columns(strs(headers@).take(i as int), used_spec),
        decreases headers@.len() - i,
    {
        let ghost t = strs(headers@).take(i + 1);
        assert(t.drop_last() =~= strs(headers@).take(i as int));
        assert(t.last() == headers@[i as int]@);
        if !contains_string(&used, &headers[i]) {
            let ghost prev = strs(unused@);
            unused.push(headers[i].clone());
            assert(strs(unused@) =~= prev.push(headers@[i as int]@));
        }
        i = i + 1;
    }
    assert(strs(headers@).take(i as int) =~= strs(headers@));
    let ghost un = strs(unused@);
    let n = unused.len();
    if n == 0 {
        return None;
    }
    let mut out = String::new();
    append_str(&mut out, "+");
    let count = usize_chars(n);
    push_chars(&mut out, count.as_slice());
    append_str(&mut out, ": ");
    if n <= 3 {
        let names = join_strings(unused.as_slice(), ", ");
        append_str(&mut out, names.as_str());
    } else {
        append_str(&mut out, unused[0].as_str());
        append_str(&mut out, ", ");
        append_str(&mut out, unused[1].as_str());
        append_str(&mut out, "…");
    }
    if n == 1 {
        let y_empty = match &recommendation.y_column {
            Some(y) => y.as_str().is_empty(),
            None => true,
        };
        if y_empty {
            append_str(&mut out, " (try -y ");
            append_str(&mut out, unused[0].as_str());
            append_str(&mut out, ")");
        } else {
            append_str(&mut out, " (try -y ");
            match &recommendation.y_column {
                Some(y) => append_str(&mut out, y.as_str()),
                None => {},
            }
            append_str(&mut out, ",");
            append_str(&mut out, unused[0].as_str());
            append_str(&mut out, " or -c ");
            append_str(&mut out, unused[0].as_str());
            append_str(&mut out, ")");
        }
    }
    assert(un[0] == unused@[0]@);
    assert(n > 1 ==> un[1] == unused@[1]@);
    assert(out@ =~= unused_hint_spec(opt_view(recommendation.y_column), un)->0);
    Some(out)
}

/// Hint about unused columns, with no extra y columns.
pub fn unused_columns_hint(recommendation: &ChartRecommendation, headers: &[String]) -> (r: Option<String>)
    ensures
        match r {
            Some(h) => unused_hint_spec(
                opt_view(recommendation.y_column),
                unused_columns(
                    strs(headers@),
                    used_columns(
                        recommendation.x_column@,
                        opt_view(recommendation.y_column),
                        opt_view(recommendation.color_column),
                        Seq::empty(),
                    ),
                ),
            ) == Some(h@),
            None => unused_hint_spec(
                opt_view(recommendation.y_column),
                unused_columns(
                    strs(headers@),
                    used_columns(
                        recommendation.x_column@,
                        opt_view(recommendation.y_column),
                        opt_view(recommendation.color_column),
                        Seq::empty(),
                    ),
                ),
            ) is None,
        },
{
    let none: [&str; 0] = [];
    assert(str_views(none@) =~= Seq::<Seq<char>>::empty());
    unused_columns_hint_with_extra(recommendation, headers, &none)
}


/// A part that suggests something (`+2: a, b`, `(try -y ...)`).
pub open spec fn is_hint(s: Seq<char>) -> bool {
    (s.len() > 0 && s[0] == '+') || has_substring(s, "try "@)
}

/// The separator between summary parts.
pub open spec fn summary_sep(colorize: bool) -> Seq<char> {
    if colorize {
        " │ "@
    } else {
        " | "@
    }
}

/// A summary line, dimmed when colour is on.
pub open spec fn tint(line: Seq<char>, colorize: bool) -> Seq<char> {
    if colorize {
        "\x1b[90m"@ + line + "\x1b[0m"@
    } else {
        line
    }
}

/// The lines of the summary: the parts joined on one line within
/// `max_width` characters; a trailing hint that does not fit goes on a
/// second, indented line.
pub open spec fn summary_lines_spec(parts: Seq<Seq<char>>, colorize: bool, max_width: nat) -> Seq<Seq<char>> {
    let sep = summary_sep(colorize);
    if parts.len() > 0 && is_hint(parts.last()) {
        let main = join_with(parts.drop_last(), sep);
        let full = main + sep + parts.last();
        if full.len() <= max_width {
            seq![tint(full, colorize)]
        } else {
            let rest = if max_width >= 2 { (max_width - 2) as nat } else { 0 };
            seq![
                tint(truncate_spec(main, max_width), colorize),
                tint("  "@ + truncate_spec(parts.last(), rest), colorize),
            ]
        }
    } else {
        seq![tint(truncate_spec(join_with(parts, sep), max_width), colorize)]
    }
}

fn tinted(line: String, colorize: bool) -> (r: String)
    ensures r@ == tint(line@, colorize),
{
    if colorize {
        let mut r = String::new();
        append_str(&mut r, "\x1b[90m");
        append_str(&mut r, line.as_str());
        append_str(&mut r, "\x1b[0m");
        r
    } else {
        line
    }
}

fn is_hint_part(s: &String) -> (r: bool)
    ensures r == is_hint(s@),
{
    let cs = chars_of(s.as_str());
    if cs.len() > 0 && cs[0] == '+' {
        return true;
    }
    let pat = chars_of("try ");
    contains_seq(cs.as_slice(), pat.as_slice())
}

/// The summary lines to print for the given parts.
pub fn summary_lines(parts: &[String], colorize: bool, max_width: usize) -> (r: Vec<String>)
    ensures strs(r@) == summary_lines_spec(strs(parts@), colorize, max_width as nat),
{
    let sep = if colorize { " │ " } else { " | " };
    let n = parts.len();
    let mut out: Vec<String> = Vec::new();
    if n > 0 && is_hint_part(&parts[n - 1]) {
        assert(strs(parts@).last() == parts@[n - 1]@);
        assert(strs(parts@).take(n - 1) =~= strs(parts@).drop_last());
        let main = join_first(parts, n - 1, sep);
        let mut full = String::new();
        append_str(&mut full, main.as_str());
        append_str(&mut full, sep);
        append_str(&mut full, parts[n - 1].as_str());
        let full_len = chars_of(full.as_str()).len();
        if full_len <= max_width {
            out.push(tinted(full, colorize));
        } else {
            let rest = if max_width >= 2 { max_width - 2 } else { 0 };
            out.push(tinted(truncate_to_width(main.as_str(), max_width), colorize));
            let mut second = String::new();
            append_str(&mut second, "  ");
            let hint = truncate_to_width(parts[n - 1].as_str(), rest);
            append_str(&mut second, hint.as_str());
            out.push(tinted(second, colorize));
        }
    } else {
        let full = join_strings(parts, sep);
        out.push(tinted(truncate_to_width(full.as_str(), max_width), colorize));
    }
    assert(strs(out@) =~= summary_lines_spec(strs(parts@), colorize, max_width as nat));
    out
}


/// The distinct non-empty values of column `idx`, in order of first appearance.
pub open spec fn distinct_values(rows: Seq<Seq<Seq<char>>>, idx: int) -> Seq<Seq<char>>
    decreases rows.len(),
{
    if rows.len() == 0 {
        Seq::empty()
    } else {
        let p = distinct_values(rows.drop_last(), idx);
        let r = rows.last();
        if 0 <= idx < r.len() && r[idx].len() > 0 && !p.contains(r[idx]) {
            p.push(r[idx])
        } else {
            p
        }
    }
}

/// The colour legend of the summary: `color=col [a=cyan, b=yellow +2]`,
/// pairing the column's distinct values with the series colour names in
/// order; just `color=col` when the column has no values (or is missing).
pub open spec fn color_legend_spec(
    color_col: Seq<char>,
    headers: Seq<Seq<char>>,
    rows: Seq<Seq<Seq<char>>>,
    names: Seq<Seq<char>>,
) -> Seq<char> {
    let i = header_index(headers, color_col);
    let values = if i < 0 { Seq::empty() } else { distinct_values(rows, i) };
    if values.len() == 0 {
        "color="@ + color_col
    } else {
        let shown = if values.len() < names.len() { values.len() } else { names.len() };
        let mappings = Seq::new(shown, |k: int| values[k] + "="@ + names[k]);
        let suffix = if values.len() > names.len() {
            " +"@ + dec_seq((values.len() - names.len()) as nat)
        } else {
            Seq::empty()
        };
        "color="@ + color_col + " ["@ + join_with(mappings, ", "@) + suffix + "]"@
    }
}

/// The colour legend for the summary line; `color_names` are the names of
/// the series colours, in order.
pub fn color_legend_hint(
    color_col: &str,
    headers: &[String],
    rows: &[Vec<String>],
    color_names: &[&str],
) -> (r: String)
    ensures
        r@ == color_legend_spec(color_col@, strs(headers@), rows_view(rows@), str_views(color_names@)),
{
    let ghost rv = rows_view(rows@);
    let mut seen: Vec<String> = Vec::new();
    match find_header(headers, color_col) {
        Some(idx) => {
            let mut i: usize = 0;
            assert(rv.take(0) =~= Seq::<Seq<Seq<char>>>::empty());
            while i < rows.len()
                invariant
                    i <= rows@.len(),
                    rv == rows_view(rows@),
                    strs(seen@) == distinct_values(rv.take(i as int), idx as int),
                decreases rows@.len() - i,
            {
                assert(rv.take(i + 1).drop_last() =~= rv.take(i as int));
                assert(rv.take(i + 1).last() == strs(rows@[i as int]@));
                if idx < rows[i].len() {
                    assert(strs(rows@[i as int]@)[idx as int] == rows@[i as int]@[idx as int]@);
                    let v = &rows[i][idx];
                    if !v.as_str().is_empty() && !contains_string(&seen, v) {
                        let ghost prev = strs(seen@);
                        seen.push(v.clone());
                        assert(strs(seen@) =~= prev.push(v@));
                    }
                }
                i = i + 1;
            }
            assert(rv.take(i as int) =~= rv);
        },
        None => {
            assert(strs(seen@) =~= Seq::<Seq<char>>::empty());
        },
    }
    let ghost values = strs(seen@);
    let mut out = String::new();
    append_str(&mut out, "color=");
    append_str(&mut out, color_col);
    if seen.len() == 0 {
        return out;
    }
    let n = color_names.len();
    let shown = if seen.len() < n { seen.len() } else { n };
    let mut mappings: Vec<String> = Vec::new();
    let mut k: usize = 0;
    while k < shown
        invariant
            k <= shown,
            shown <= seen@.len(),
            shown <= color_names@.len(),
            values == strs(seen@),
            strs(mappings@) =~= Seq::new(
                shown as nat,
                |j: int| values[j] + "="@ + str_views(color_names@)[j],
            ).take(k as int),
        decreases shown - k,
    {
        let mut m = String::new();
        append_str(&mut m, seen[k].as_str());
        append_str(&mut m, "=");
        append_str(&mut m, color_names[k]);
        let ghost prev = strs(mappings@);
        mappings.push(m);
        assert(strs(mappings@) =~= prev.push(m@));
        k = k + 1;
    }
    assert(Seq::new(shown as nat, |j: int| values[j] + "="@ + str_views(color_names@)[j]).take(k as int)
        =~= Seq::new(shown as nat, |j: int| values[j] + "="@ + str_views(color_names@)[j]));
    append_str(&mut out, " [");
    let joined = join_strings(mappings.as_slice(), ", ");
    append_str(&mut out, joined.as_str());
    if seen.len() > n {
        append_str(&mut out, " +");
        let extra = usize_chars(seen.len() - n);
        push_chars(&mut out, extra.as_slice());
    }
    append_str(&mut out, "]");
    assert(out@ =~= color_legend_spec(color_col@, strs(headers@), rv, str_views(color_names@)));
    out
}


/// How a chart type is shown in the summary line.
pub open spec fn chart_type_title(ct: ChartType) -> Seq<char> {
    match ct {
        ChartType::Line => "Line"@,
        ChartType::Bar => "Bar"@,
        ChartType::Scatter => "Scatter"@,
        ChartType::Histogram => "Histogram"@,
        ChartType::Heatmap => "Heatmap"@,
    }
}

/// How a chart type is shown in the summary line.
pub fn chart_type_display(ct: ChartType) -> (r: &'static str)
    ensures r@ == chart_type_title(ct),
{
    match ct {
        ChartType::Line => "Line",
        ChartType::Bar => "Bar",
        ChartType::Scatter => "Scatter",
        ChartType::Histogram => "Histogram",
        ChartType::Heatmap => "Heatmap",
    }
}

/// What the summary line is built from. The numeric annotations are given as
/// text: `y_range` the formatted smallest and largest y value (shown for a
/// summed y), `spark` the sparkline of the y values and `trend` the trend
/// annotation (both left out of bar charts).
pub struct SummaryContext<'a> {
    pub recommendation: &'a ChartRecommendation,
    pub chart_type: ChartType,
    pub headers: &'a [String],
    pub rows: &'a [Vec<String>],
    pub extra_y_columns: &'a [(String, Option<String>)],
    pub agg: AggFunction,
    pub y_range: Option<(String, String)>,
    pub spark: Option<String>,
    pub trend: Option<String>,
    pub skipped_rows: usize,
    pub color_names: &'a [&'a str],
}

/// The y part: `y=col`, or `y=agg(col)` when not summed; a summed y shows
/// its range, and a chart other than bars its sparkline.
pub open spec fn y_part_spec(
    y: Seq<char>,
    agg: AggFunction,
    range: Option<(String, String)>,
    spark: Option<String>,
    ct: ChartType,
) -> Seq<char> {
    let shown = if agg == AggFunction::Sum { y } else { agg_name(agg) + "("@ + y + ")"@ };
    let with_range = match range {
        Some((lo, hi)) => if agg == AggFunction::Sum {
            " ("@ + lo@ + "–"@ + hi@ + ")"@
        } else {
            Seq::empty()
        },
        None => Seq::empty(),
    };
    let with_spark = match spark {
        Some(sp) => if ct != ChartType::Bar { " "@ + sp@ } else { Seq::empty() },
        None => Seq::empty(),
    };
    "y="@ + shown + with_range + with_spark
}

/// The names the extra y columns are shown by: the label, else the column.
pub open spec fn extra_labels(extra: Seq<(String, Option<String>)>) -> Seq<Seq<char>> {
    extra.map_values(|e: (String, Option<String>)| match e.1 {
        Some(l) => l@,
        None => e.0@,
    })
}

/// The extra y columns themselves.
pub open spec fn extra_columns(extra: Seq<(String, Option<String>)>) -> Seq<Seq<char>> {
    extra.map_values(|e: (String, Option<String>)| e.0@)
}

/// The row count: `1 row`, `n rows`, with the skipped rows when there are any.
pub open spec fn row_count_spec(n: nat, skipped: nat) -> Seq<char> {
    let noun = if n == 1 { "row"@ } else { "rows"@ };
    if skipped > 0 {
        dec_seq(n) + " "@ + noun + " ("@ + dec_seq(skipped) + " skipped)"@
    } else {
        dec_seq(n) + " "@ + noun
    }
}

/// The parts of the summary line, in order: chart type, x column, y part and
/// trend, extra y columns, colour legend, row count, unused-column hint.
pub open spec fn summary_parts_spec(ctx: SummaryContext) -> Seq<Seq<char>> {
    let rec = ctx.recommendation;
    let base = seq![chart_type_title(ctx.chart_type), "x="@ + rec.x_column@];
    let with_y = match opt_view(rec.y_column) {
        Some(y) => {
            let trend = match ctx.trend {
                Some(t) => if ctx.chart_type != ChartType::Bar { seq![t@] } else { Seq::empty() },
                None => Seq::empty(),
            };
            base.push(y_part_spec(y, ctx.agg, ctx.y_range, ctx.spark, ctx.chart_type)) + trend
        },
        None => base,
    };
    let extra = ctx.extra_y_columns@;
    let with_extra = if extra.len() > 0 {
        with_y.push("y+="@ + join_with(extra_labels(extra), ","@))
    } else {
        with_y
    };
    let with_color = match opt_view(rec.color_column) {
        Some(c) => with_extra.push(
            color_legend_spec(c, strs(ctx.headers@), rows_view(ctx.rows@), str_views(ctx.color_names@)),
        ),
        None => with_extra,
    };
    let with_rows = with_color.push(row_count_spec(ctx.rows@.len(), ctx.skipped_rows as nat));
    let hint = unused_hint_spec(
        opt_view(rec.y_column),
        unused_columns(
            strs(ctx.headers@),
            used_columns(rec.x_column@, opt_view(rec.y_column), opt_view(rec.color_column), extra_columns(extra)),
        ),
    );
    match hint {
        Some(h) => with_rows.push(h),
        None => with_rows,
    }
}

fn push_str_part(parts: &mut Vec<String>, p: String)
    ensures strs(final(parts)@) == strs(old(parts)@).push(p@),
{
    parts.push(p);
    assert(strs(parts@) =~= strs(old(parts)@).push(p@));
}

/// The y part of the summary line.
fn format_y_part(
    y: &str,
    agg: AggFunction,
    range: &Option<(String, String)>,
    spark: &Option<String>,
    ct: ChartType,
) -> (r: String)
    ensures r@ == y_part_spec(y@, agg, *range, *spark, ct),
{
    let mut out = String::new();
    append_str(&mut out, "y=");
    let summed = match agg {
        AggFunction::Sum => true,
        _ => false,
    };
    if summed {
        append_str(&mut out, y);
    } else {
        append_str(&mut out, agg_label(agg));
        append_str(&mut out, "(");
        append_str(&mut out, y);
        append_str(&mut out, ")");
    }
    match range {
        Some((lo, hi)) => if summed {
            append_str(&mut out, " (");
            append_str(&mut out, lo.as_str());
            append_str(&mut out, "–");
            append_str(&mut out, hi.as_str());
            append_str(&mut out, ")");
        },
        None => {},
    }
    let bar = match ct {
        ChartType::Bar => true,
        _ => false,
    };
    match spark {
        Some(sp) => if !bar {
            append_str(&mut out, " ");
            append_str(&mut out, sp.as_str());
        },
        None => {},
    }
    assert(out@ =~= y_part_spec(y@, agg, *range, *spark, ct));
    out
}

fn row_count_text(n: usize, skipped: usize) -> (r: String)
    ensures r@ == row_count_spec(n as nat, skipped as nat),
{
    let mut out = String::new();
    let d = usize_chars(n);
    push_chars(&mut out, d.as_slice());
    append_str(&mut out, " ");
    if n == 1 {
        append_str(&mut out, "row");
    } else {
        append_str(&mut out, "rows");
    }
    if skipped > 0 {
        append_str(&mut out, " (");
        let k = usize_chars(skipped);
        push_chars(&mut out, k.as_slice());
        append_str(&mut out, " skipped)");
    }
    assert(out@ =~= row_count_spec(n as nat, skipped as nat));
    out
}

/// The parts of the one-line summary shown before a chart.
pub fn build_summary_parts(ctx: &SummaryContext) -> (r: Vec<String>)
    ensures strs(r@) == summary_parts_spec(*ctx),
{
    let rec = ctx.recommendation;
    let mut parts: Vec<String> = Vec::new();
    push_str_part(&mut parts, chart_type_display(ctx.chart_type).to_owned());
    let mut x = String::new();
    append_str(&mut x, "x=");
    append_str(&mut x, rec.x_column.as_str());
    push_str_part(&mut parts, x);
    assert(strs(parts@) =~= seq![chart_type_title(ctx.chart_type), "x="@ + rec.x_column@]);
    let bar = match ctx.chart_type {
        ChartType::Bar => true,
        _ => false,
    };
    match &rec.y_column {
        Some(y) => {
            let yp = format_y_part(y.as_str(), ctx.agg, &ctx.y_range, &ctx.spark, ctx.chart_type);
            push_str_part(&mut parts, yp);
            let ghost before = strs(parts@);
            match &ctx.trend {
                Some(t) => if !bar {
                    push_str_part(&mut parts, t.clone());
                },
                None => {},
            }
            assert(strs(parts@) =~= before + (match ctx.trend {
                Some(t) => if ctx.chart_type != ChartType::Bar { seq![t@] } else { Seq::<Seq<char>>::empty() },
                None => Seq::<Seq<char>>::empty(),
            }));
        },
        None => {},
    }
    let extra = ctx.extra_y_columns;
    let mut labels: Vec<String> = Vec::new();
    let mut cols: Vec<&str> = Vec::new();
    let mut i: usize = 0;
    while i < extra.len()
        invariant
            i <= extra@.len(),
            strs(labels@) == extra_labels(extra@).take(i as int),
            str_views(cols@) == extra_columns(extra@).take(i as int),
        decreases extra@.len() - i,
    {
        let ghost pl = strs(labels@);
        let ghost pc = str_views(cols@);
        match &extra[i].1 {
            Some(l) => labels.push(l.clone()),
            None => labels.push(extra[i].0.clone()),
        }
        cols.push(extra[i].0.as_str());
        assert(strs(labels@) =~= pl.push(extra_labels(extra@)[i as int]));
        assert(str_views(cols@) =~= pc.push(extra_columns(extra@)[i as int]));
        i = i + 1;
        assert(extra_labels(extra@).take(i as int) =~= extra_labels(extra@).take(i - 1).push(extra_labels(extra@)[i - 1]));
        assert(extra_columns(extra@).take(i as int) =~= extra_columns(extra@).take(i - 1).push(extra_columns(extra@)[i - 1]));
    }
    assert(extra_labels(extra@).take(i as int) =~= extra_labels(extra@));
    assert(extra_columns(extra@).take(i as int) =~= extra_columns(extra@));
    if extra.len() > 0 {
        let mut e = String::new();
        append_str(&mut e, "y+=");
        let joined = join_strings(labels.as_slice(), ",");
        append_str(&mut e, joined.as_str());
        push_str_part(&mut parts, e);
    }
    match &rec.color_column {
        Some(c) => {
            let legend = color_legend_hint(c.as_str(), ctx.headers, ctx.rows, ctx.color_names);
            push_str_part(&mut parts, legend);
        },
        None => {},
    }
    push_str_part(&mut parts, row_count_text(ctx.rows.len(), ctx.skipped_rows));
    match unused_columns_hint_with_extra(rec, ctx.headers, cols.as_slice()) {
        Some(h) => push_str_part(&mut parts, h),
        None => {},
    }
    parts
}

/// Truncation keeps text that fits and otherwise cuts it to exactly the
/// width (at least one character), ending in `…`.
pub proof fn law_truncation_fits(s: Seq<char>, max: nat)
    ensures
        s.len() <= max ==> truncate_spec(s, max) == s,
        s.len() > max ==> truncate_spec(s, max).len() == (if max >= 1 { max } else { 1 }),
        s.len() > max ==> truncate_spec(s, max).last() == '…',
{
}


/// ASCII upper case of one character; other characters are unchanged.
pub open spec fn ascii_upper(c: char) -> char {
    if 'a' <= c && c <= 'z' { ((c as int) - 32) as char } else { c }
}

/// `s` with its first character in upper case.
pub open spec fn capitalized(s: Seq<char>) -> Seq<char> {
    if s.len() == 0 { s } else { seq![ascii_upper(s[0])] + s.drop_first() }
}

/// The summary line names the chart type drawn by its lower-case name (the
/// one machine-readable output uses) with a capital first letter, so
/// different chart types are always announced differently.
pub proof fn law_summary_names_chart_type(a: ChartType, b: ChartType)
    ensures
        chart_type_title(a) == capitalized(chart_type_name_spec(a)),
        a != b ==> chart_type_title(a) != chart_type_title(b),
{
    reveal_strlit("Line");
    reveal_strlit("Bar");
    reveal_strlit("Scatter");
    reveal_strlit("Histogram");
    reveal_strlit("Heatmap");
    reveal_strlit("line");
    reveal_strlit("bar");
    reveal_strlit("scatter");
    reveal_strlit("histogram");
    reveal_strlit("heatmap");
    let t = chart_type_title(a);
    let nm = chart_type_name_spec(a);
    assert(ascii_upper('l') == 'L' && ascii_upper('b') == 'B' && ascii_upper('s') == 'S'
        && ascii_upper('h') == 'H');
    assert(t =~= capitalized(nm));
    if a != b {
        let u = chart_type_title(b);
        assert(t.len() != u.len() || t[0] != u[0]);
    }
}

} // verus!
