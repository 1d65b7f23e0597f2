//! Bar chart layout.

use vstd::prelude::*;
use crate::oneshot::summary::{truncate_spec, truncate_to_width};

verus! {

/// The width of each bar: the inner width (two columns less than the chart)
/// shared among the bars, less one column of gap, kept within `3..=20`.
pub open spec fn bar_width_spec(chart_width: u16, bar_count: nat) -> int {
    if bar_count == 0 {
        3
    } else {
        let inner: int = if chart_width >= 2 { chart_width - 2 } else { 0 };
        let w = inner / (bar_count as int);
        let w1 = if w >= 1 { w - 1 } else { 0 };
        if w1 < 3 {
            3
        } else if w1 > 20 {
            20
        } else {
            w1
        }
    }
}

/// Width of each bar for `bar_count` bars in `chart_width` columns.
pub fn compute_bar_width(chart_width: u16, bar_count: usize) -> (r: u16)
    ensures r as int == bar_width_spec(chart_width, bar_count as nat),
{
    if bar_count == 0 {
        return 3;
    }
    let inner: usize = if chart_width >= 2 { (chart_width - 2) as usize } else { 0 };
    let w = inner / bar_count;
    let w1 = if w >= 1 { w - 1 } else { 0 };
    if w1 < 3 {
        3
    } else if w1 > 20 {
        20
    } else {
        w1 as u16
    }
}

/// Truncates a label to `max_width` characters, ending in `…` when cut.
pub fn truncate_label(label: &str, max_width: u16) -> (r: String)
    ensures r@ == truncate_spec(label@, max_width as nat),
{
    truncate_to_width(label, max_width as usize)
}


/// Bars are between three and twenty columns wide.
pub proof fn law_bar_width_in_range(chart_width: u16, bar_count: nat)
    ensures
        3 <= bar_width_spec(chart_width, bar_count) <= 20,
{
}

} // verus!
