//! A single-pass payments ledger: deposits, withdrawals and the dispute
//! lifecycle (dispute, resolve, chargeback) replayed against per-client
//! accounts.
//!
//! Amounts are fixed-point integers counting ten-thousandths of the currency
//! unit (four decimal places). `Account` is the fund-bucket state machine for
//! one client; `AccountManager` owns all accounts plus the deposit history and
//! drives the dispute lifecycle against it.

pub mod account;
pub mod account_manager;
pub mod held_sum;
pub mod laws;
pub mod types;
