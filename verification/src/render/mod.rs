//! Chart data shared by the renderers, and the parts of rendering that are
//! plain arithmetic on cells and labels.

pub mod bar;
pub mod heatmap;
pub mod histogram;

use vstd::prelude::*;
use crate::text::strs;

verus! {

/// Rendering mode for XY chart widgets.
#[derive(Debug, Clone, Copy, PartialEq, Eq, Structural)]
pub enum XYMode {
    /// Line chart: many points are joined by lines, a single point is a dot.
    Line,
    /// Scatter plot: points are drawn as marks.
    Scatter,
}

/// Data for a heatmap: a count matrix over two categorical columns.
#[derive(Debug, Clone, PartialEq)]
pub struct HeatmapData {
    pub title: Option<String>,
    /// Row labels (y axis categories).
    pub row_labels: Vec<String>,
    /// Column labels (x axis categories).
    pub col_labels: Vec<String>,
    /// Count matrix: `counts[row][col]`.
    pub counts: Vec<Vec<usize>>,
    /// Maximum count value (for colour scaling).
    pub max_count: usize,
}

/// Tick labels with each label equal to the one before it blanked.
pub open spec fn dedup_ticks_spec(ticks: Seq<Seq<char>>) -> Seq<Seq<char>> {
    Seq::new(
        ticks.len(),
        |i: int| if i > 0 && ticks[i] == ticks[i - 1] { Seq::<char>::empty() } else { ticks[i] },
    )
}

/// Replaces consecutive identical tick labels with empty strings.
pub fn dedup_tick_labels(ticks: &[String]) -> (r: Vec<String>)
    ensures strs(r@) == dedup_ticks_spec(strs(ticks@)),
{
    let mut out: Vec<String> = Vec::new();
    let mut i: usize = 0;
    while i < ticks.len()
        invariant
            i <= ticks@.len(),
            strs(out@) =~= dedup_ticks_spec(strs(ticks@)).take(i as int),
        decreases ticks@.len() - i,
    {
        let ghost prev = strs(out@);
        if i > 0 && ticks[i] == ticks[i - 1] {
            out.push(String::new());
        } else {
            out.push(ticks[i].clone());
        }
        assert(strs(out@) =~= prev.push(out@[i as int]@));
        i = i + 1;
    }
    assert(dedup_ticks_spec(strs(ticks@)).take(i as int) =~= dedup_ticks_spec(strs(ticks@)));
    out
}


/// After deduplication no label equals the one before it, unless blank.
pub proof fn law_dedup_leaves_no_repeats(ticks: Seq<Seq<char>>)
    ensures
        forall|i: int| 0 < i < ticks.len() && (#[trigger] dedup_ticks_spec(ticks)[i]).len() > 0
            ==> dedup_ticks_spec(ticks)[i] != dedup_ticks_spec(ticks)[i - 1],
{
}

} // verus!
