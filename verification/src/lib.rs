//! Host-side core of an interchain-account protocol: the channel handshake,
//! the account registry, the account factory bridge, the denom trace ledger
//! and the atomic execution of packet action queues.

pub mod order;
pub mod text;
pub mod table;
pub mod coin;
pub mod error;
pub mod channel;
pub mod registry;
pub mod ledger;
pub mod factory;
pub mod action;
pub mod state;
pub mod packet;
pub mod query;
pub mod entries;
