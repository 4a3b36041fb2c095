//! An in-memory cache of business-day calendars.
//!
//! Each calendar is a strictly ascending list of epoch days with a sparse
//! page index over it. The cache answers "step `n` calendar days from this
//! date" by a page lookup followed by a short binary search, and is filled
//! once from rows handed in by the caller.

pub mod limits;
pub mod fixed;
pub mod error;
pub mod paging;
pub mod calendar;
pub mod math;
pub mod control;
pub mod source;
pub mod store;
pub mod listing;
pub mod cache;
pub mod query;
