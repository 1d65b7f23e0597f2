//! Chart vocabulary shared by the parsers and layout code.

use vstd::prelude::*;

verus! {

/// Kind of chart to render.
#[derive(Debug, Clone, Copy, PartialEq, Eq, Structural)]
pub enum ChartType {
    Line,
    Bar,
    Scatter,
    Histogram,
    Heatmap,
}

/// The lower-case name of a chart type.
pub open spec fn chart_type_name_spec(ct: ChartType) -> Seq<char> {
    match ct {
        ChartType::Line => "line"@,
        ChartType::Bar => "bar"@,
        ChartType::Scatter => "scatter"@,
        ChartType::Histogram => "histogram"@,
        ChartType::Heatmap => "heatmap"@,
    }
}

/// The lower-case name of a chart type.
pub fn chart_type_name(ct: ChartType) -> (r: &'static str)
    ensures r@ == chart_type_name_spec(ct),
{
    match ct {
        ChartType::Line => "line",
        ChartType::Bar => "bar",
        ChartType::Scatter => "scatter",
        ChartType::Histogram => "histogram",
        ChartType::Heatmap => "heatmap",
    }
}

/// Chart type as given on the command line.
#[derive(Debug, Clone, Copy, PartialEq, Eq, Structural)]
pub enum ChartTypeArg {
    Line,
    Bar,
    Scatter,
    Histogram,
    Heatmap,
}

pub open spec fn chart_type_of_arg(a: ChartTypeArg) -> ChartType {
    match a {
        ChartTypeArg::Line => ChartType::Line,
        ChartTypeArg::Bar => ChartType::Bar,
        ChartTypeArg::Scatter => ChartType::Scatter,
        ChartTypeArg::Histogram => ChartType::Histogram,
        ChartTypeArg::Heatmap => ChartType::Heatmap,
    }
}

impl ChartTypeArg {
    /// The chart type this argument names.
    pub fn to_chart_type(self) -> (r: ChartType)
        ensures r == chart_type_of_arg(self),
    {
        match self {
            ChartTypeArg::Line => ChartType::Line,
            ChartTypeArg::Bar => ChartType::Bar,
            ChartTypeArg::Scatter => ChartType::Scatter,
            ChartTypeArg::Histogram => ChartType::Histogram,
            ChartTypeArg::Heatmap => ChartType::Heatmap,
        }
    }
}

/// Sort order for bar values.
#[derive(Debug, Clone, Copy, PartialEq, Eq, Structural)]
pub enum SortOrder {
    Desc,
    Asc,
}

/// Aggregation applied to the values of one bar.
#[derive(Debug, Clone, Copy, PartialEq, Eq, Structural)]
pub enum AggFunction {
    Sum,
    Mean,
    Count,
    Max,
    Min,
}

/// Inferred semantic type of a column.
#[derive(Debug, Clone, Copy, PartialEq, Eq, Structural)]
pub enum DataType {
    Temporal,
    Quantitative,
    Categorical,
    Nominal,
}

/// The chart chosen for a data set and the columns it uses.
#[derive(Debug, Clone, PartialEq)]
pub struct ChartRecommendation {
    pub chart_type: ChartType,
    pub x_column: String,
    pub y_column: Option<String>,
    pub color_column: Option<String>,
}

/// A recommendation of the given chart over the given columns.
pub fn make_recommendation(
    chart_type: ChartType,
    x: &str,
    y: Option<&str>,
    color: Option<&str>,
) -> (r: ChartRecommendation)
    ensures
        r.chart_type == chart_type,
        r.x_column@ == x@,
        opt_view(r.y_column) == (match y { Some(s) => Some(s@), None => None::<Seq<char>> }),
        opt_view(r.color_column) == (match color { Some(s) => Some(s@), None => None::<Seq<char>> }),
{
    ChartRecommendation {
        chart_type,
        x_column: x.to_owned(),
        y_column: match y {
            Some(s) => Some(s.to_owned()),
            None => None,
        },
        color_column: match color {
            Some(s) => Some(s.to_owned()),
            None => None,
        },
    }
}

pub open spec fn opt_view(o: Option<String>) -> Option<Seq<char>> {
    match o {
        Some(s) => Some(s@),
        None => None,
    }
}

} // verus!
