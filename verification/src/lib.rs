//! Verified core of the AstroCalc observing planner: labels, selections,
//! night time grids, visibility segments, catalog identifiers and cache keys.

pub mod catalog;
pub mod colors;
pub mod config_panel;
pub mod iss;
pub mod labels;
pub mod order;
pub mod prefetch;
pub mod text;
pub mod segments;
pub mod selection;
pub mod timegrid;
pub mod tle;
pub mod weather;
