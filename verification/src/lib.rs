//! An embedded, transactional, ordered key-value storage engine.
//!
//! Typed values are stored under byte-string keys inside named stores.
//! A registry hands out one environment per location; an environment
//! issues snapshot readers and a single exclusive writer at a time.

pub mod codec;
pub mod entries;
pub mod env;
pub mod keys;
pub mod registry;
pub mod service;
pub mod store;
pub mod txn;
pub mod value;

pub use value::DecodeError;
pub use value::StoreError;
pub use value::Value;
