//! Heatmap layout: where the labels and cells of a count matrix go.

use vstd::prelude::*;
use crate::render::HeatmapData;
use crate::text::{dec_seq, usize_string, append_str};

verus! {

/// A heatmap chart of a count matrix.
pub struct HeatmapChart<'a> {
    pub data: &'a HeatmapData,
}

impl<'a> HeatmapChart<'a> {
    pub fn new(data: &'a HeatmapData) -> (r: Self)
        ensures r.data == data,
    {
        HeatmapChart { data }
    }
}

/// The text of a cell: its count, or `·` for zero.
pub open spec fn count_text(count: nat) -> Seq<char> {
    if count == 0 {
        seq!['·']
    } else {
        dec_seq(count)
    }
}

/// Formats a count for display in a cell.
pub fn format_count(count: usize) -> (r: String)
    ensures r@ == count_text(count as nat),
{
    if count == 0 {
        let mut s = String::new();
        append_str(&mut s, "·");
        assert(s@ =~= seq!['·']) by {
            reveal_strlit("·");
        }
        s
    } else {
        usize_string(count)
    }
}

} // verus!
