//! Synchronization of public-transit reference data: lines, routes, stops,
//! route paths and timetables of several cities, brought from what their
//! transit authorities publish into the rows of one relational schema.
//!
//! This crate is the verified core. It decides; it performs nothing. For
//! every stage of a synchronization it says which request comes next, takes
//! the decoded answer, and gives the effects to perform: bulk writes, which
//! insert a row or overwrite the row that has its natural key, and pauses.
//!
//! - [`text`] and [`number`]: characters, separators, decimal numbers.
//! - [`geometry`]: the path of a route from three wire formats.
//! - [`timetable`]: departures bucketed by weekday.
//! - [`dedup`]: first occurrence wins.
//! - [`store`] and [`schema`]: the store as a map from natural keys to
//!   rows, and the statements that write to it.
//! - [`models`]: the shapes of the answers and of the rows.
//! - [`updater`] and [`updaters`]: requests, effects, credentials, the
//!   order of the stages, and the stages of each city.
pub mod dedup;
pub mod geometry;
pub mod models;
pub mod number;
pub mod schema;
pub mod store;
pub mod text;
pub mod timetable;
pub mod updater;
pub mod updaters;
