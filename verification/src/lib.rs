//! Balance aggregation and ledger reconciliation engine.
//!
//! The library tracks the monetary value of a set of configured crypto
//! sources, normalizes it into a home currency through a daily-cached
//! exchange rate, and decides, for each source, the single ledger
//! transaction to create or amend so that the ledger's running balance
//! follows the observed total — at most one entry per payee per
//! calendar day, re-runs converging on the same amount, and a failed
//! source never aborting the rest of the run.
//!
//! Amounts are fixed-point integers (milliunits: one thousandth of a
//! currency unit); exchange rates are exact rationals; dates are plain
//! year, month and day. All decision logic is verified; network,
//! browser and file I/O live outside the library and feed it plain
//! values.

pub mod adapters;
pub mod aggregate;
pub mod date;
pub mod models;
pub mod money;
pub mod rates;
pub mod reconcile;
pub mod text;
