//! Synthetic daily price series for a registry of instruments: a deterministic
//! date and price grid, column-wise bulk loading into two storage sinks, and
//! ordered retrieval of what was loaded.

pub mod batch;
pub mod calendar;
pub mod grid;
pub mod loader;
pub mod model;
pub mod query;
pub mod registry;
pub mod sink;
pub mod store;
