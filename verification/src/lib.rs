//! Verified core of a double-entry personal finance ledger: money
//! formatting, calendar periods, transaction planning and integrity
//! checks, and report arithmetic.

pub mod accounts;
pub mod commands;
pub mod dates;
pub mod error;
pub mod ledger;
pub mod money;
pub mod reports;
pub mod schedule;
pub mod text;
pub mod transactions;
