//! Schema-diff engine for MySQL `CREATE TABLE` text.
//!
//! The library turns raw DDL text into a structured table definition,
//! compares two snapshots of such definitions, and renders the SQL
//! statements (`CREATE TABLE`, `DROP TABLE`, `ALTER TABLE`) that move the
//! target schema toward the source schema.

use vstd::prelude::*;

pub mod alter;
pub mod conn;
pub mod dict;
pub mod diff;
pub mod laws;
pub mod parse;
pub mod render;
pub mod snapshot;
pub mod table;
pub mod text;
