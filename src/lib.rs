//! A single-pass ledger that replays deposits, withdrawals, disputes,
//! resolves and chargebacks against per-client accounts.
//!
//! Monetary amounts are fixed-point integers counted in ten-thousandths of a
//! currency unit (see [`amount::SCALE`]).

pub mod amount;
pub mod client;
pub mod laws;
pub mod record;
pub mod transactions;

pub use amount::{format_amount, parse_amount, SCALE};
pub use client::{get_id, Client, ClientError};
pub use transactions::{Error, LedgerState, Transaction, TransactionT, TransactionsDispatcher};
pub use record::{kind_from_lowercase, parse_kind, parse_record, record_from_kind};
