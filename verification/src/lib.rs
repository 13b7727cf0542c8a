//! Verified core of a member-account migration pipeline.
//!
//! Records from tabular sources (CSV text, spreadsheet ranges) converge on one
//! canonical account model; the canonical set is reconciled against a remote
//! document collection through backup, restore, delete and append plans, with
//! every destructive step gated on explicit confirmations.

pub mod account;
pub mod backup;
pub mod csvio;
pub mod error;
pub mod money;
pub mod ops;
pub mod school;
pub mod sheets;
