//! An in-memory URL shortener.
//!
//! - `alphabet`: the symbols identifiers are made of, and the URL-safe default.
//! - `generator`: random short identifiers of a fixed, validated shape.
//! - `policy`: the bounded-retry collision policy, candidate by candidate.
//! - `store`: the insert-only registry from identifier to target, filled
//!   under that policy.
//! - `history`: what follows for a store over any number of requests.
//! - `shared`: a lock-guarded handle that serves concurrent callers.
//! - `link`: the public address of an identifier.

pub mod alphabet;
pub mod generator;
pub mod history;
pub mod link;
pub mod policy;
pub mod shared;
pub mod store;
