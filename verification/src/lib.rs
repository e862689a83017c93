//! An in-memory string key-value store with a line-based wire protocol
//! and JSON snapshot persistence.
//!
//! The pieces, in dependency order: [`text`] holds the character-level
//! helpers; [`parser`] is the message codec — the operation vocabulary,
//! request framing and arity rules; [`store`] is the storage engine;
//! [`snapshot`] writes and reads the on-disk JSON form of a store;
//! [`persistence`] wraps the store with the snapshot policy; [`server`]
//! serves one decoded request against a store; [`client`] keeps a
//! server address. Transport and file work stay with the caller: every
//! function here takes and returns plain values.

pub mod client;
pub mod errors;
pub mod numbers;
pub mod parser;
pub mod persistence;
pub mod server;
pub mod snapshot;
pub mod store;
pub mod text;
