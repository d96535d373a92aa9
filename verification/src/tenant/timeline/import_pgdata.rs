//! Importing a Postgres data directory into a timeline.

pub mod flow;
