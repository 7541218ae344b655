//! Secure random password generation with character-class guarantees,
//! entropy-based strength scoring, and a per-key sliding-window rate limiter.
//!
//! The generation engine draws every character through a cryptographically
//! secure source and guarantees at least one character from each enabled
//! character class. The rate limiter tracks recent request instants per key
//! and enforces a maximum number of requests per rolling minute.

pub mod args;
pub mod config;
mod csprng;
pub mod error;
pub mod limiter;
pub mod password;
pub mod request;
pub mod strength;
pub mod text;
mod wide;
