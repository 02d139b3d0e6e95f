//! State transitions of a small discussion-forum ledger kept in a
//! `cosmwasm_std` key-value store: threads, the replies under each thread,
//! and the counters that hand out their identifiers.

pub mod codec;
pub mod contract;
pub mod error;
pub mod history;
pub mod keys;
pub mod ledger;
pub mod msg;
pub mod order;
pub mod repository;
pub mod state;
pub mod store;
