//! Data loading, parsing and text-layout logic for a terminal charting tool.

pub mod text;
pub mod util;
pub mod chart;
pub mod loader;
pub mod present;
pub mod oneshot;
pub mod output;
pub mod diagnostics;
pub mod pipeline;
pub mod render;
