//! Text output formats: HTML pages, plain and Markdown tables, SVG text, and
//! the records behind machine-readable output.

pub mod html;
pub mod table;
pub mod markdown;
pub mod svg;
pub mod stats;

use vstd::prelude::*;
use crate::chart::{ChartRecommendation, ChartType, SortOrder, chart_type_name, chart_type_name_spec, opt_view};
use crate::oneshot::{header_index, find_header};
use crate::oneshot::summary::{chart_type_title, chart_type_display};
use crate::text::{strs, dec_seq, usize_chars, push_chars, append_str};

verus! {

/// Chart recommendation in machine-readable output.
#[derive(Debug, Clone, PartialEq)]
pub struct RecommendationOutput {
    pub chart_type: String,
    pub x: String,
    pub y: Option<String>,
    pub color: Option<String>,
}

impl RecommendationOutput {
    /// The output record of a recommendation: the chart type by its
    /// lower-case name, and the columns as they are.
    pub fn from_recommendation(r: &ChartRecommendation) -> (out: RecommendationOutput)
        ensures
            out.chart_type@ == chart_type_name_spec(r.chart_type),
            out.x@ == r.x_column@,
            opt_view(out.y) == opt_view(r.y_column),
            opt_view(out.color) == opt_view(r.color_column),
    {
        RecommendationOutput {
            chart_type: chart_type_name(r.chart_type).to_owned(),
            x: r.x_column.clone(),
            y: r.y_column.clone(),
            color: r.color_column.clone(),
        }
    }
}


/// How a table of the data is shown.
#[derive(Debug, Clone, Copy, PartialEq, Eq, Structural)]
pub enum TablePlan {
    /// A bar chart with both columns present: the y column (at `y_idx`)
    /// aggregated per value of the x column (at `x_idx`), as two columns.
    Aggregated { x_idx: usize, y_idx: usize },
    /// Every column, at most `limit` rows.
    AllColumns { limit: usize },
}

/// The plan for a table: aggregated for a bar chart whose x and y columns
/// are both among the headers, else every column under the row limit (the
/// given one, or `default_limit`).
pub open spec fn table_plan_spec(
    chart_type: ChartType,
    headers: Seq<Seq<char>>,
    x: Seq<char>,
    y: Option<Seq<char>>,
    limit: Option<usize>,
    default_limit: usize,
) -> TablePlan {
    let xi = header_index(headers, x);
    let yi = match y {
        Some(c) => header_index(headers, c),
        None => -1,
    };
    if chart_type == ChartType::Bar && xi >= 0 && yi >= 0 {
        TablePlan::Aggregated { x_idx: xi as usize, y_idx: yi as usize }
    } else {
        TablePlan::AllColumns {
            limit: match limit {
                Some(n) => n,
                None => default_limit,
            },
        }
    }
}

/// Chooses how a table of the data is shown for the chart type drawn.
pub fn table_plan(
    recommendation: &ChartRecommendation,
    headers: &[String],
    chart_type: ChartType,
    limit: Option<usize>,
    default_limit: usize,
) -> (r: TablePlan)
    ensures
        r == table_plan_spec(chart_type, strs(headers@), recommendation.x_column@,
            opt_view(recommendation.y_column), limit, default_limit),
{
    let xi = find_header(headers, recommendation.x_column.as_str());
    let yi = match &recommendation.y_column {
        Some(y) => find_header(headers, y.as_str()),
        None => None,
    };
    let bar = match chart_type {
        ChartType::Bar => true,
        _ => false,
    };
    if bar {
        match (xi, yi) {
            (Some(x), Some(y)) => {
                return TablePlan::Aggregated { x_idx: x, y_idx: y };
            },
            _ => {},
        }
    }
    TablePlan::AllColumns {
        limit: match limit {
            Some(n) => n,
            None => default_limit,
        },
    }
}

/// The warning for a row limit or sort order that a table of every column
/// ignores (they apply to bar charts only); the limit is mentioned first.
pub open spec fn non_bar_warning_spec(
    chart_type: ChartType,
    limit: Option<usize>,
    sort: Option<SortOrder>,
    row_limit: usize,
) -> Option<Seq<char>> {
    if chart_type == ChartType::Bar {
        None
    } else if limit is Some {
        Some("warning: --top/--tail has no effect on "@ + chart_type_title(chart_type)
            + " tables (only applies to bar charts); showing first "@ + dec_seq(row_limit as nat) + " rows"@)
    } else if sort is Some {
        Some("warning: --sort has no effect on "@ + chart_type_title(chart_type)
            + " tables (only applies to bar charts)"@)
    } else {
        None
    }
}

/// Warns when a row limit or sort order is given for a chart type whose
/// table ignores it.
pub fn non_bar_warning(
    chart_type: ChartType,
    limit: Option<usize>,
    sort: Option<SortOrder>,
    row_limit: usize,
) -> (r: Option<String>)
    ensures
        match r {
            Some(w) => non_bar_warning_spec(chart_type, limit, sort, row_limit) == Some(w@),
            None => non_bar_warning_spec(chart_type, limit, sort, row_limit) is None,
        },
{
    let bar = match chart_type {
        ChartType::Bar => true,
        _ => false,
    };
    if bar {
        return None;
    }
    let mut out = String::new();
    if limit.is_some() {
        append_str(&mut out, "warning: --top/--tail has no effect on ");
        append_str(&mut out, chart_type_display(chart_type));
        append_str(&mut out, " tables (only applies to bar charts); showing first ");
        let d = usize_chars(row_limit);
        push_chars(&mut out, d.as_slice());
        append_str(&mut out, " rows");
        Some(out)
    } else if sort.is_some() {
        append_str(&mut out, "warning: --sort has no effect on ");
        append_str(&mut out, chart_type_display(chart_type));
        append_str(&mut out, " tables (only applies to bar charts)");
        Some(out)
    } else {
        None
    }
}

/// The note printed when a table shows fewer rows than the data has.
pub open spec fn rows_notice_spec(shown: nat, total: nat) -> Option<Seq<char>> {
    if shown < total {
        Some("info: showing "@ + dec_seq(shown) + "/"@ + dec_seq(total)
            + " rows (use --top N, --sample N, or -o json for full data)"@)
    } else {
        None
    }
}

/// The note that a table was cut to `shown` of `total` rows, if it was.
pub fn rows_notice(shown: usize, total: usize) -> (r: Option<String>)
    ensures
        match r {
            Some(w) => rows_notice_spec(shown as nat, total as nat) == Some(w@),
            None => rows_notice_spec(shown as nat, total as nat) is None,
        },
{
    if shown < total {
        let mut out = String::new();
        append_str(&mut out, "info: showing ");
        let a = usize_chars(shown);
        push_chars(&mut out, a.as_slice());
        append_str(&mut out, "/");
        let b = usize_chars(total);
        push_chars(&mut out, b.as_slice());
        append_str(&mut out, " rows (use --top N, --sample N, or -o json for full data)");
        Some(out)
    } else {
        None
    }
}

} // verus!
