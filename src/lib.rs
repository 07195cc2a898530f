//! A peer-to-peer node's ledger core: hash-chained entries, a pending pool that
//! is reconciled into the chain, and the decisions of the peer protocol.

pub mod encoding;
pub mod random;
pub mod time;
pub mod digest;
pub mod entry;
pub mod ledger;
pub mod p2p;
pub mod bootstrap;
pub mod wallet;
