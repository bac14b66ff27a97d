//! An in-memory tabular data store with a small SQL-like command language.
//!
//! The store keeps named tables of typed columns and textual rows.  A parser
//! turns one raw command string into a typed statement, and an executor
//! applies the statement to the store, producing either rendered tabular
//! text (reads) or a row count (mutations).  A text codec serializes the
//! whole store to a canonical document whose SHA-256 digest serves as an
//! advisory tamper signal on reload.
#![verifier::loop_isolation(false)]

use vstd::prelude::*;

pub mod digits;
pub mod errors;
pub mod executor;
pub mod laws;
pub mod parser;
pub mod persist;
pub mod schema;
pub mod store;
pub mod text;

verus! {

} // verus!
