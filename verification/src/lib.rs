//! A toy payments engine.
//!
//! Transactions come out of CSV into in-memory client accounts, and the
//! balances are written back out as CSV. The engine knows nothing about CSV and
//! the CSV layer knows nothing about account rules.

pub mod csv_calls;
pub mod csv_io;
pub mod csv_laws;
pub mod engine;
pub mod ignored;
pub mod laws;
pub mod ledger;
pub mod model;
pub mod money;
pub mod run;
pub mod text;
