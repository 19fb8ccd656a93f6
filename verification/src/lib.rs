//! Core state machine for a time-shared trading account.
//!
//! One exchange account is shared by several operators who take turns
//! holding an exclusive lock on it.  This crate holds the verified core:
//! the account lock manager, the reservation scheduler, the transaction
//! ledger with its settlement arithmetic, the poller decision logic
//! (order reconciliation, AFK checks, reservation pre-emption), the pay
//! summary aggregation, and the typed configuration store.  All I/O --
//! the chat front end, the exchange client, persistence -- lives outside,
//! hands the core plain values, and takes plain values back.

pub mod commands;
pub mod config;
pub mod errors;
pub mod ledger;
pub mod model;
pub mod numeric;
pub mod pay;
pub mod schedule;
pub mod text;
pub mod session;
