//! Decision engine of a single-run rebalancing tool: it measures how each
//! equity of a watchlist has moved against its baseline price, picks the one
//! that fell the most, and sizes one market buy order within a cash budget.
//!
//! All amounts are unsigned integers in one common minor currency unit, and
//! a percent change is a whole number of hundredths of a percent, rounded
//! away from zero so that it keeps the sign of the price change. The engine
//! fetches nothing and submits nothing: it takes prices and a cash balance,
//! and names the order that its caller is to submit.
//!
//! - [`performance`]: the percent change of a price and the order of changes
//! - [`model`]: the values that flow through a run
//! - [`evaluator`]: the records of a watchlist and its worst performer
//! - [`report`]: the records sorted for the report
//! - [`sizer`]: the affordable shares and the affordability gate
//! - [`engine`]: the whole run, and the exit status of its outcome

pub mod engine;
pub mod evaluator;
pub mod model;
pub mod performance;
pub mod report;
pub mod sizer;
