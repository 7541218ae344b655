//! Error kinds for the generation engine, the argument parser, the rate
//! limiter, and the configuration loader.
//!
//! These are plain enumerations of the conditions under which each component
//! refuses to work; the contracts of the functions that return them state
//! exactly when each variant is produced.

use vstd::prelude::*;

verus! {

/// A reason why password generation was refused.
#[derive(Debug, Clone, Copy, PartialEq, Eq, Structural)]
pub enum GenerationError {
    /// The requested length is zero.
    InvalidLength,
    /// No character class is enabled.
    NoCharacterClass,
    /// The character pool came out empty (defensive; cannot occur once the
    /// configuration has passed validation).
    EmptyPool,
    /// The requested length is smaller than the number of required character
    /// groups, so class coverage cannot be guaranteed.
    LengthTooShortForClasses,
}

/// A reason why a command argument string was refused.
#[derive(Debug, Clone, Copy, PartialEq, Eq, Structural)]
pub enum ParseError {
    /// A token starting with `--` matched none of the known options.
    UnrecognizedOption,
    /// A token that should have been a length was not a valid number.
    InvalidLength,
}

/// The rate limiter refused the request.
#[derive(Debug, Clone, Copy, PartialEq, Eq, Structural)]
pub enum RateLimitError {
    /// The key has used up its allowance for the trailing window; the caller
    /// should try again later.
    RateLimited,
}

/// A reason why a configuration was refused.
#[derive(Debug, Clone, Copy, PartialEq, Eq, Structural)]
pub enum ConfigError {
    /// The bot token is empty.
    EmptyToken,
    /// The minimum password length is zero.
    ZeroMinLength,
    /// The maximum password length is below the minimum.
    MaxBelowMin,
    /// The default password length falls outside the configured bounds.
    DefaultOutOfRange,
}

} // verus!
