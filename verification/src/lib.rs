//! A persisted-record backend for a liquor retail operation.
//!
//! Five entity collections (users, products, sales, inventory adjustments,
//! supply-chain events) are kept in durable ordered maps keyed by synthetic
//! 64-bit identifiers.  Records are stored through a deterministic byte
//! codec whose round trip is proved, and every entity operation carries a
//! contract describing exactly how it reads and changes the collections.

pub mod codec;
pub mod records;
pub mod store;
pub mod collection;
pub mod service;
