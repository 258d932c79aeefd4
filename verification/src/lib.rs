//! A payments engine: it applies a sequence of client transactions
//! (deposits, withdrawals, disputes, resolves and chargebacks) to client
//! accounts and reports the resulting account state.

pub mod amount;
pub mod models;
pub mod processor;
pub mod laws;
