//! Decode-and-dispatch engine of a market-data feed for two on-chain order-book
//! venues: byte-level decoders for the order and trade accounts, depth
//! aggregation, per-user reconciliation, trade derivation and candles.

pub mod account;
pub mod bytes;
pub mod candles;
pub mod decimal;
pub mod depth;
pub mod events;
pub mod fanout;
pub mod gigadex;
pub mod lists;
pub mod market;
pub mod markets;
pub mod openbook;
pub mod pubkey;
pub mod reconcile;
pub mod slab;
pub mod subscribe;
pub mod text;
pub mod trades;
pub mod update;
