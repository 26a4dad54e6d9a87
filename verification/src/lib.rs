//! A small concurrent balance ledger: accounts with a fixed overdraft limit,
//! debit/credit movements applied atomically, and a statement view of the
//! ten most recent movements.
//!
//! The `ledger` module holds the store itself; `models`, `requests` and
//! `responses` hold the data types that cross its boundary; `routes` holds
//! the request-level entry points; `error` and `errors` hold the error
//! classifications returned to callers.

pub mod error;
pub mod errors;
pub mod ledger;
pub mod models;
pub mod requests;
pub mod responses;
pub mod routes;
