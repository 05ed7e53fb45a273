//! Matrix build sweeps: every combination of configuration type, SDK version, toolchain
//! and language dialect becomes a build cell; the cells are configured and built out of
//! tree, side by side, and their outcomes gathered into a pass/fail matrix.
//!
//! - `axes`: the configured paths and the four axes, selected or defaulted.
//! - `cells`: the cells of a sweep and their order.
//! - `resources`: how many cells build at once and with how many jobs each.
//! - `runner`: the tool arguments of a cell and the decisions of its run.
//! - `matrix`: the outcome of every cell.
//! - `sweep`: a planned sweep, and what holds of the matrix after a run.
//! - `labels`, `text`: a small label map, and character-level helpers.
pub mod axes;
pub mod cells;
pub mod labels;
pub mod matrix;
pub mod resources;
pub mod runner;
pub mod sweep;
pub mod text;
