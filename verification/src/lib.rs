//! A small dimensional-analysis and unit-conversion engine.
//!
//! A table of named measurement units, each defined in terms of earlier
//! units and numeric scale factors, is parsed into a registry of symbolic
//! unit expressions.  Two such expressions can be multiplied or divided,
//! with matching atoms cancelled, to answer "what is the ratio between
//! unit A and unit B": a numeric coefficient plus any leftover symbolic
//! dimension.  A self-contained calendar module provides day-of-week and
//! date arithmetic for the surrounding calculator.

pub mod datetime;
pub mod rational;
pub mod registry;
pub mod units;
