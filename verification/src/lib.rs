//! A price oracle ledger: an append-mostly store of price observations keyed
//! by (source, asset), with range queries, "last N" queries, latest-value
//! lookup and administrator-gated append and prune.

pub mod assoc;
pub mod asset;
pub mod keys;
pub mod price;
pub mod history;
pub mod store;
pub mod ledger;
pub mod oracle;
pub mod laws;
