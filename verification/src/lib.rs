//! A reconciliation engine for a spreadsheet-backed transaction ledger.
//!
//! Bank-statement rows are read from a tabular cell store into a
//! column-parallel batch, records already present in the ledger are
//! subtracted, and the remainder is appended with a category label resolved
//! by a two-tier rule match.  Independent maintenance passes back-fill
//! missing categories from offsetting neighbour rows, re-apply the rule
//! match to rows that are not pinned by hand, and rewrite the date columns
//! with a new delimiter.

pub mod accounting;
pub mod amounts;
pub mod bank;
pub mod batch;
pub mod categories;
pub mod dates;
pub mod errors;
pub mod fixtures;
pub mod reading;
pub mod settings;
pub mod sheet;
pub mod text;
pub mod writing;
