//! Present mode: Markdown slides with embedded charts.

pub mod parser;
pub mod app;
pub mod render;
pub mod chart_loader;
pub mod inline;

pub use parser::parse_presentation;
pub use inline::parse_inline_spans;
pub use app::PresentApp;

use vstd::prelude::*;
use crate::chart::{ChartType, SortOrder, AggFunction, opt_view};
use crate::text::strs;
use crate::loader::rows_view;

verus! {

/// Configuration for a chart embedded in a slide.
#[derive(Debug, Clone, PartialEq)]
pub struct ChartBlock {
    pub source: String,
    pub chart_type: Option<ChartType>,
    pub x_col: Option<String>,
    pub y_col: Option<String>,
    pub color_col: Option<String>,
    pub title: Option<String>,
    /// Filter expressions (same syntax as `--where`).
    pub filter: Vec<String>,
    /// Sort order for bar charts.
    pub sort: Option<SortOrder>,
    /// Aggregation function for bar charts.
    pub agg: Option<AggFunction>,
    /// Limit bar chart to top N categories.
    pub top: Option<usize>,
    /// Histogram bin count.
    pub bins: Option<usize>,
    /// Chart height in rows.
    pub height: Option<u16>,
    /// "After" file for a diff chart (`source` is "before").
    pub diff: Option<String>,
}

/// Elements that can appear on a slide.
#[derive(Debug, Clone, PartialEq)]
pub enum SlideElement {
    /// Plain text paragraph.
    Text(String),
    /// Bullet point list.
    Bullets(Vec<String>),
    /// Chart block with configuration.
    Chart(ChartBlock),
    /// Fenced code block with optional language.
    Code { language: Option<String>, content: String },
    /// Sub-heading (`##` or `###`) within a slide.
    Heading { level: u8, text: String },
    /// Numbered/ordered list.
    OrderedList(Vec<String>),
    /// GFM table.
    Table { headers: Vec<String>, rows: Vec<Vec<String>> },
    /// Block quote lines.
    Blockquote(Vec<String>),
}

/// A single slide in a presentation.
#[derive(Debug, Clone, PartialEq)]
pub struct Slide {
    pub title: Option<String>,
    pub content: Vec<SlideElement>,
}

/// A parsed presentation.
#[derive(Debug, Clone, PartialEq)]
pub struct Presentation {
    pub slides: Vec<Slide>,
}

/// Content of a [`ChartBlock`].
pub struct ChartBlockV {
    pub source: Seq<char>,
    pub chart_type: Option<ChartType>,
    pub x_col: Option<Seq<char>>,
    pub y_col: Option<Seq<char>>,
    pub color_col: Option<Seq<char>>,
    pub title: Option<Seq<char>>,
    pub filter: Seq<Seq<char>>,
    pub sort: Option<SortOrder>,
    pub agg: Option<AggFunction>,
    pub top: Option<usize>,
    pub bins: Option<usize>,
    pub height: Option<u16>,
    pub diff: Option<Seq<char>>,
}

/// Content of a [`SlideElement`].
pub enum ElemV {
    Text(Seq<char>),
    Bullets(Seq<Seq<char>>),
    Chart(ChartBlockV),
    Code { language: Option<Seq<char>>, content: Seq<char> },
    Heading { level: u8, text: Seq<char> },
    OrderedList(Seq<Seq<char>>),
    Table { headers: Seq<Seq<char>>, rows: Seq<Seq<Seq<char>>> },
    Blockquote(Seq<Seq<char>>),
}

/// Content of a [`Slide`].
pub struct SlideV {
    pub title: Option<Seq<char>>,
    pub content: Seq<ElemV>,
}

impl View for ChartBlock {
    type V = ChartBlockV;

    open spec fn view(&self) -> ChartBlockV {
        ChartBlockV {
            source: self.source@,
            chart_type: self.chart_type,
            x_col: opt_view(self.x_col),
            y_col: opt_view(self.y_col),
            color_col: opt_view(self.color_col),
            title: opt_view(self.title),
            filter: strs(self.filter@),
            sort: self.sort,
            agg: self.agg,
            top: self.top,
            bins: self.bins,
            height: self.height,
            diff: opt_view(self.diff),
        }
    }
}

impl View for SlideElement {
    type V = ElemV;

    open spec fn view(&self) -> ElemV {
        match self {
            SlideElement::Text(t) => ElemV::Text(t@),
            SlideElement::Bullets(b) => ElemV::Bullets(strs(b@)),
            SlideElement::Chart(c) => ElemV::Chart(c@),
            SlideElement::Code { language, content } => ElemV::Code {
                language: opt_view(*language),
                content: content@,
            },
            SlideElement::Heading { level, text } => ElemV::Heading { level: *level, text: text@ },
            SlideElement::OrderedList(items) => ElemV::OrderedList(strs(items@)),
            SlideElement::Table { headers, rows } => ElemV::Table {
                headers: strs(headers@),
                rows: rows_view(rows@),
            },
            SlideElement::Blockquote(lines) => ElemV::Blockquote(strs(lines@)),
        }
    }
}

pub open spec fn elems_view(v: Seq<SlideElement>) -> Seq<ElemV> {
    v.map_values(|e: SlideElement| e@)
}

impl View for Slide {
    type V = SlideV;

    open spec fn view(&self) -> SlideV {
        SlideV { title: opt_view(self.title), content: elems_view(self.content@) }
    }
}

pub open spec fn slides_view(v: Seq<Slide>) -> Seq<SlideV> {
    v.map_values(|s: Slide| s@)
}

impl View for Presentation {
    type V = Seq<SlideV>;

    open spec fn view(&self) -> Seq<SlideV> {
        slides_view(self.slides@)
    }
}

} // verus!
