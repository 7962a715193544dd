//! A ledger that replays client transactions (deposits, withdrawals, disputes,
//! resolutions and chargebacks) and yields the final balances of each client.
pub mod amount;
pub mod ledger;
