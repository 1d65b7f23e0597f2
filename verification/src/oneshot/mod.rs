//! One-shot chart output: the choices made before a chart is drawn.

pub mod summary;
pub mod ansi;

use vstd::prelude::*;
use crate::chart::{ChartType, ChartTypeArg, ChartRecommendation, chart_type_of_arg};
use crate::text::{strs, chars_of, trim, trim_seq, float_lit, is_float_literal};
use crate::chart::opt_view;
use crate::loader::rows_view;

verus! {

/// Default chart height in terminal rows.
pub const DEFAULT_HEIGHT: u16 = 24;

/// The chart type to draw: the override when one is given, else the recommended type.
pub fn resolve_chart_type(
    recommendation: &ChartRecommendation,
    override_type: Option<ChartTypeArg>,
) -> (r: ChartType)
    ensures
        r == (match override_type {
            Some(ct) => chart_type_of_arg(ct),
            None => recommendation.chart_type,
        }),
{
    match override_type {
        Some(ct) => ct.to_chart_type(),
        None => recommendation.chart_type,
    }
}

/// Index of the first header equal to `name`, or -1.
pub open spec fn header_index(headers: Seq<Seq<char>>, name: Seq<char>) -> int
    decreases headers.len(),
{
    if headers.len() == 0 {
        -1
    } else {
        let i = header_index(headers.drop_last(), name);
        if i >= 0 {
            i
        } else if headers.last() == name {
            headers.len() - 1
        } else {
            -1
        }
    }
}

/// The values in column `idx` of the rows that are long enough to have one.
pub open spec fn column_values(rows: Seq<Seq<Seq<char>>>, idx: int) -> Seq<Seq<char>>
    decreases rows.len(),
{
    if rows.len() == 0 {
        Seq::empty()
    } else {
        let p = column_values(rows.drop_last(), idx);
        if 0 <= idx < rows.last().len() {
            p.push(rows.last()[idx])
        } else {
            p
        }
    }
}

/// `v` limited to `lo..=hi`.
pub open spec fn clamp(v: int, lo: int, hi: int) -> int {
    if v < lo {
        lo
    } else if v > hi {
        hi
    } else {
        v
    }
}

/// The chart height chosen from the data: bar charts and heatmaps with at
/// most five distinct x values, and line and scatter charts with at most six
/// rows, are drawn shorter than the default.
pub open spec fn adaptive_height_spec(
    chart_type: ChartType,
    x_column: Seq<char>,
    headers: Seq<Seq<char>>,
    rows: Seq<Seq<Seq<char>>>,
) -> int {
    match chart_type {
        ChartType::Bar | ChartType::Heatmap => {
            let i = header_index(headers, x_column);
            let x_idx = if i < 0 { 0 } else { i };
            let unique = column_values(rows, x_idx).to_set().len();
            if unique <= 5 {
                clamp((unique * 4 + 2) as int, 10, DEFAULT_HEIGHT as int)
            } else {
                DEFAULT_HEIGHT as int
            }
        },
        ChartType::Line | ChartType::Scatter => {
            if rows.len() <= 6 {
                clamp((rows.len() * 3 + 6) as int, 12, DEFAULT_HEIGHT as int)
            } else {
                DEFAULT_HEIGHT as int
            }
        },
        _ => DEFAULT_HEIGHT as int,
    }
}

/// Index of the first header equal to `name`.
pub fn find_header(headers: &[String], name: &str) -> (r: Option<usize>)
    ensures
        r is None <==> header_index(strs(headers@), name@) < 0,
        r is Some ==> r->0 as int == header_index(strs(headers@), name@),
{
    let target = name.to_owned();
    let mut i: usize = 0;
    while i < headers.len()
        invariant
            i <= headers@.len(),
            target@ == name@,
            header_index(strs(headers@).take(i as int), name@) == -1,
        decreases headers@.len() - i,
    {
        assert(strs(headers@).take(i + 1).drop_last() =~= strs(headers@).take(i as int));
        assert(strs(headers@).take(i + 1).last() == headers@[i as int]@);
        if headers[i] == target {
            proof {
                lemma_header_index_prefix(strs(headers@), name@, i + 1);
            }
            return Some(i);
        }
        i = i + 1;
    }
    assert(strs(headers@).take(i as int) =~= strs(headers@));
    None
}

/// Once a prefix holds `name`, longer prefixes find it at the same place.
proof fn lemma_header_index_prefix(hs: Seq<Seq<char>>, name: Seq<char>, n: int)
    requires
        0 <= n <= hs.len(),
        header_index(hs.take(n), name) >= 0,
    ensures
        header_index(hs, name) == header_index(hs.take(n), name),
    decreases hs.len() - n,
{
    if n < hs.len() {
        assert(hs.take(n + 1).drop_last() =~= hs.take(n));
        lemma_header_index_prefix(hs, name, n + 1);
    } else {
        assert(hs.take(n) =~= hs);
    }
}

/// Whether `v` occurs in `seen`.
fn contains_value(seen: &Vec<String>, v: &String) -> (r: bool)
    ensures r == strs(seen@).contains(v@),
{
    let mut i: usize = 0;
    while i < seen.len()
        invariant
            i <= seen@.len(),
            forall|j: int| 0 <= j < i ==> strs(seen@)[j] != v@,
        decreases seen@.len() - i,
    {
        if seen[i] == *v {
            assert(strs(seen@)[i as int] == v@);
            return true;
        }
        i = i + 1;
    }
    false
}

/// The number of distinct values in column `idx`.
fn distinct_in_column(rows: &[Vec<String>], idx: usize) -> (r: usize)
    ensures r == column_values(rows_view(rows@), idx as int).to_set().len(),
{
    let mut seen: Vec<String> = Vec::new();
    let mut i: usize = 0;
    let ghost rv = rows_view(rows@);
    assert(rv.take(0) =~= Seq::<Seq<Seq<char>>>::empty());
    while i < rows.len()
        invariant
            i <= rows@.len(),
            rv == rows_view(rows@),
            strs(seen@).no_duplicates(),
            strs(seen@).to_set() =~= column_values(rv.take(i as int), idx as int).to_set(),
        decreases rows@.len() - i,
    {
        assert(rv.take(i + 1).drop_last() =~= rv.take(i as int));
        assert(rv.take(i + 1).last() == strs(rows@[i as int]@));
        if idx < rows[i].len() {
            let v = &rows[i][idx];
            let ghost cv = column_values(rv.take(i as int), idx as int);
            assert(column_values(rv.take(i + 1), idx as int) == cv.push(v@));
            if !contains_value(&seen, v) {
                let ghost prev = strs(seen@);
                seen.push(v.clone());
                assert(strs(seen@) =~= prev.push(v@));
                proof {
                    prev.lemma_push_to_set_commute(v@);
                }
            } else {
                assert(strs(seen@).to_set().contains(v@));
            }
            proof {
                cv.lemma_push_to_set_commute(v@);
            }
        }
        i = i + 1;
    }
    assert(rv.take(i as int) =~= rv);
    proof {
        strs(seen@).unique_seq_to_set();
    }
    seen.len()
}

/// Chart height chosen from the density of the data.
pub fn adaptive_height(
    chart_type: ChartType,
    recommendation: &ChartRecommendation,
    headers: &[String],
    rows: &[Vec<String>],
) -> (r: u16)
    ensures
        r as int == adaptive_height_spec(
            chart_type,
            recommendation.x_column@,
            strs(headers@),
            rows_view(rows@),
        ),
{
    match chart_type {
        ChartType::Bar | ChartType::Heatmap => {
            let x_idx = match find_header(headers, recommendation.x_column.as_str()) {
                Some(i) => i,
                None => 0,
            };
            let unique = distinct_in_column(rows, x_idx);
            if unique <= 5 {
                let h = (unique as u16) * 4 + 2;
                if h < 10 {
                    10
                } else if h > DEFAULT_HEIGHT {
                    DEFAULT_HEIGHT
                } else {
                    h
                }
            } else {
                DEFAULT_HEIGHT
            }
        },
        ChartType::Line | ChartType::Scatter => {
            if rows.len() <= 6 {
                let h = (rows.len() as u16) * 3 + 6;
                if h < 12 {
                    12
                } else if h > DEFAULT_HEIGHT {
                    DEFAULT_HEIGHT
                } else {
                    h
                }
            } else {
                DEFAULT_HEIGHT
            }
        },
        _ => DEFAULT_HEIGHT,
    }
}


/// The rows whose value in column `idx` is missing or is not a number that
/// `f64` reads (after trimming).
pub open spec fn unreadable_count(rows: Seq<Seq<Seq<char>>>, idx: int) -> nat
    decreases rows.len(),
{
    if rows.len() == 0 {
        0
    } else {
        let r = rows.last();
        let bad = !(0 <= idx < r.len() && float_lit(trim_seq(r[idx])));
        unreadable_count(rows.drop_last(), idx) + if bad { 1nat } else { 0nat }
    }
}

/// The number of rows a chart skips for their y value: none without a y
/// column (or when it is not among the headers), else the rows whose y
/// value is missing or not a number.
pub open spec fn skipped_rows_spec(
    y_column: Option<Seq<char>>,
    headers: Seq<Seq<char>>,
    rows: Seq<Seq<Seq<char>>>,
) -> nat {
    match y_column {
        Some(y) => {
            let i = header_index(headers, y);
            if i < 0 { 0 } else { unreadable_count(rows, i) }
        },
        None => 0,
    }
}

/// Counts the rows whose y value cannot be read as a number.
pub fn count_skipped_y_rows(
    recommendation: &ChartRecommendation,
    headers: &[String],
    rows: &[Vec<String>],
) -> (r: usize)
    ensures
        r == skipped_rows_spec(opt_view(recommendation.y_column), strs(headers@), rows_view(rows@)),
{
    let idx = match &recommendation.y_column {
        Some(y) => match find_header(headers, y.as_str()) {
            Some(i) => i,
            None => {
                return 0;
            },
        },
        None => {
            return 0;
        },
    };
    let ghost rv = rows_view(rows@);
    let mut count: usize = 0;
    let mut i: usize = 0;
    assert(rv.take(0) =~= Seq::<Seq<Seq<char>>>::empty());
    while i < rows.len()
        invariant
            i <= rows@.len(),
            rv == rows_view(rows@),
            count == unreadable_count(rv.take(i as int), idx as int),
            count <= i,
        decreases rows@.len() - i,
    {
        assert(rv.take(i + 1).drop_last() =~= rv.take(i as int));
        assert(rv.take(i + 1).last() == strs(rows@[i as int]@));
        let bad = if idx < rows[i].len() {
            assert(strs(rows@[i as int]@)[idx as int] == rows@[i as int]@[idx as int]@);
            let v = trim(chars_of(rows[i][idx].as_str()).as_slice());
            !is_float_literal(v.as_slice())
        } else {
            true
        };
        if bad {
            count = count + 1;
        }
        i = i + 1;
    }
    assert(rv.take(i as int) =~= rv);
    count
}


/// Adaptive heights stay between ten rows and the default height.
pub proof fn law_adaptive_height_bounds(
    chart_type: ChartType,
    x_column: Seq<char>,
    headers: Seq<Seq<char>>,
    rows: Seq<Seq<Seq<char>>>,
)
    ensures
        10 <= adaptive_height_spec(chart_type, x_column, headers, rows) <= DEFAULT_HEIGHT as int,
{
}

} // verus!
