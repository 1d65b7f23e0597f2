//! Where a chart block's data file is looked for.
//!
//! Paths are text with `/` separators, as `std::path::Path` treats them on Unix.

use vstd::prelude::*;
use crate::text::{append_str, chars_of};
use crate::chart::{AggFunction, ChartType, SortOrder, opt_view};
use super::{ChartBlock, ChartBlockV};

verus! {

/// A path that starts at the root.
pub open spec fn is_absolute(p: Seq<char>) -> bool {
    p.len() > 0 && p[0] == '/'
}

/// `Path::join`: an absolute `rel` replaces `base`; otherwise `rel` is
/// appended after a `/` when `base` does not already end in one.
pub open spec fn join_spec(base: Seq<char>, rel: Seq<char>) -> Seq<char> {
    if is_absolute(rel) {
        rel
    } else if base.len() == 0 || base.last() == '/' {
        base + rel
    } else {
        base + seq!['/'] + rel
    }
}

/// `base` joined with `rel`.
pub fn join_path(base: &str, rel: &str) -> (r: String)
    ensures r@ == join_spec(base@, rel@),
{
    let b = chars_of(base);
    let r = chars_of(rel);
    let mut out = String::new();
    if r.len() > 0 && r[0] == '/' {
        append_str(&mut out, rel);
        assert(out@ =~= rel@);
        return out;
    }
    append_str(&mut out, base);
    if b.len() > 0 && b[b.len() - 1] != '/' {
        append_str(&mut out, "/");
        assert("/"@ =~= seq!['/']) by {
            reveal_strlit("/");
        }
    }
    append_str(&mut out, rel);
    out
}

/// The file a chart reads: an absolute source as it is; a relative one next
/// to the Markdown file when a file exists there, else as given (relative to
/// the working directory).
pub open spec fn chart_source_spec(source: Seq<char>, base_dir: Seq<char>, beside_exists: bool) -> Seq<char> {
    if is_absolute(source) {
        source
    } else if beside_exists {
        join_spec(base_dir, source)
    } else {
        source
    }
}

/// Resolves a chart source path against the Markdown file's directory;
/// `beside_exists` says whether `join_path(base_dir, source)` names a file.
pub fn resolve_chart_source_path(source: &str, base_dir: &str, beside_exists: bool) -> (r: String)
    ensures r@ == chart_source_spec(source@, base_dir@, beside_exists),
{
    let s = chars_of(source);
    if (s.len() > 0 && s[0] == '/') || !beside_exists {
        let mut out = String::new();
        append_str(&mut out, source);
        assert(out@ =~= source@);
        out
    } else {
        join_path(base_dir, source)
    }
}


/// The settings a slide chart is drawn with, as far as they are choices
/// rather than numbers.
#[derive(Debug, Clone, PartialEq)]
pub struct ChartChoices {
    /// The chart's title.
    pub title: Option<String>,
    /// How a bar chart aggregates the values of one bar.
    pub agg: AggFunction,
    /// How a bar chart orders its bars.
    pub sort: Option<SortOrder>,
    /// How many bars a bar chart keeps.
    pub top: Option<usize>,
    /// The label of the value axis (for a histogram, of the binned column).
    pub value_label: String,
}

/// The choices for a slide chart of type `ct` over columns labelled
/// `x_label` and `y_label`: the block's title, or `x × y` for a heatmap
/// without one; the block's aggregation, else sum; the block's sort order,
/// else descending when a `top` is given; and for a histogram the label of
/// the column it bins (`hist_is_y`: the y column), else the y label.
pub open spec fn chart_choices_spec(
    ct: ChartType,
    block: ChartBlockV,
    x_label: Seq<char>,
    y_label: Seq<char>,
    hist_is_y: bool,
) -> (Option<Seq<char>>, AggFunction, Option<SortOrder>, Option<usize>, Seq<char>) {
    let title = match block.title {
        Some(t) => Some(t),
        None => if ct == ChartType::Heatmap { Some(x_label + " × "@ + y_label) } else { None },
    };
    let agg = match block.agg {
        Some(a) => a,
        None => AggFunction::Sum,
    };
    let sort = match block.sort {
        Some(s) => Some(s),
        None => if block.top is Some { Some(SortOrder::Desc) } else { None },
    };
    let label = if ct == ChartType::Histogram && !hist_is_y { x_label } else { y_label };
    (title, agg, sort, block.top, label)
}

/// The choices a slide chart is drawn with.
pub fn chart_choices(
    ct: ChartType,
    block: &ChartBlock,
    x_label: &str,
    y_label: &str,
    hist_is_y: bool,
) -> (r: ChartChoices)
    ensures
        (opt_view(r.title), r.agg, r.sort, r.top, r.value_label@)
            == chart_choices_spec(ct, block@, x_label@, y_label@, hist_is_y),
{
    let heatmap = match ct {
        ChartType::Heatmap => true,
        _ => false,
    };
    let histogram = match ct {
        ChartType::Histogram => true,
        _ => false,
    };
    let title = match &block.title {
        Some(t) => Some(t.clone()),
        None => if heatmap {
            let mut s = String::new();
            append_str(&mut s, x_label);
            append_str(&mut s, " × ");
            append_str(&mut s, y_label);
            Some(s)
        } else {
            None
        },
    };
    let agg = match block.agg {
        Some(a) => a,
        None => AggFunction::Sum,
    };
    let sort = match block.sort {
        Some(s) => Some(s),
        None => if block.top.is_some() { Some(SortOrder::Desc) } else { None },
    };
    let mut value_label = String::new();
    if histogram && !hist_is_y {
        append_str(&mut value_label, x_label);
    } else {
        append_str(&mut value_label, y_label);
    }
    assert(value_label@ =~= (if ct == ChartType::Histogram && !hist_is_y { x_label@ } else { y_label@ }));
    ChartChoices { title, agg, sort, top: block.top, value_label }
}

} // verus!
