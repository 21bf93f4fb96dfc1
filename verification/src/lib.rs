//! Comparative benchmark reports.
//!
//! Several benchmark runs measure the same metrics again and again. Each run
//! fills a [`Grid`]: a dense table with one column for each metric and one
//! row for each iteration, in one [`Unit`]. A [`Manager`] holds the grids of
//! the runs and makes reports of them: the values of the selected runs in a
//! chosen unit, and beside each value its change in percent against a
//! baseline.
//!
//! A cell is the IEEE 754 binary64 pattern of a number, kept as a `u64`; a
//! not-a-number pattern marks a cell for which nothing was recorded. The
//! library decides which cells are compared and converted with which, and
//! leaves the arithmetic on the patterns to a function that its caller
//! supplies (see [`binary64::Operation`]). Its contracts say of every result
//! which operations on which operands it comes from.

pub mod binary64;
pub mod grid;
pub mod manager;
pub mod unit;

pub use grid::Grid;
pub use manager::{Manager, Profile};
pub use unit::{MemoryUnit, PureUnit, TimeUnit, Unit};
