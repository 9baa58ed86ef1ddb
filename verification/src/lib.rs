//! Turns the rows of a table into JSON objects, as a schema of fields says.
//!
//! [`schema`] holds the fields and reads them from a configuration object,
//! [`transform`] turns one row into one object, [`laws`] states what holds of
//! every row, [`json`] is the tree of values that goes in and comes out, and
//! [`config`] makes the configuration of a run. [`pattern`], [`record`] and
//! [`text`] say what is taken on trust from the `regex` crate, the `csv` crate
//! and the standard library.

pub mod text;
pub mod json;
pub mod pattern;
pub mod record;
pub mod schema;
pub mod transform;
pub mod laws;
pub mod config;
