//! An in-process, typed key-value store with per-key expiration.
//!
//! Values are tagged unions of six shapes (integer, bytes, text, sequence,
//! set, mapping) with a lenient coercion matrix for by-value reads and strict
//! access for in-place mutation. Each row may carry an absolute deadline;
//! reads mask expired rows lazily, while `pop`, `remove`, `clear` and the
//! sweep delete them. A registry owns any number of independently named
//! stores. Every operation's behaviour is pinned by a contract over the
//! mathematical model of the store; `laws` states the properties that span
//! several operations.
pub mod assoc;
pub mod clock;
pub mod convert;
pub mod errors;
pub mod laws;
pub mod manager;
pub mod numbers;
pub mod store;
pub mod text;
pub mod types;
pub mod value_entry;
