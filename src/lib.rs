//! Peer-sync core of a beacon-chain node: a streaming Merkle hasher, the
//! head-change event fabric, peer status classification, the block request
//! server and the gossip admission decisions, with the key-value store's
//! batch layout.
pub mod hashing;
pub mod merkle_stream;
pub mod sync;
pub mod server;
pub mod gossip;
pub mod events;
pub mod store;
pub mod processor;
