//! Core of an interactive spreadsheet: a sparse grid of cells holding
//! literals or formulas, a tick-driven evaluation engine that recomputes
//! every cell from a snapshot of the previous tick, and an asynchronous
//! render cache that turns rich cell content into pixel buffers exactly
//! once per distinct content.

pub mod cell;
pub mod demo;
pub mod evaluator;
pub mod formula;
pub mod gpu_cell;
pub mod grid_state;
pub mod svg_renderer;
pub mod text;
