//! Replays a log of deposits, withdrawals and dispute records against
//! per-client ledger accounts and reports the final balances.
//!
//! Amounts are fixed-point numbers counted in ten-thousandths of a unit.

pub mod ledger;
pub mod laws;
pub mod decode;
pub mod stream;
pub mod report;
