//! Application configuration: the bot token and the numeric limits that the
//! surrounding system feeds into password generation and rate limiting.

use vstd::prelude::*;

use crate::error::ConfigError;

verus! {

/// Main application configuration.
///
/// A `Config` built through [`Config::new`] always satisfies
/// [`Config::well_formed`].
#[derive(Debug, Clone)]
pub struct Config {
    /// Token identifying the bot towards the messaging transport.
    pub bot_token: String,
    /// Default password length if the user does not specify one.
    pub default_password_length: usize,
    /// Maximum allowed password length.
    pub max_password_length: usize,
    /// Minimum allowed password length.
    pub min_password_length: usize,
    /// Maximum password generation requests per key per minute.
    pub rate_limit_per_minute: usize,
}

impl Config {
    /// The invariant that a validated configuration satisfies: a non-empty
    /// token, a positive minimum length, and a default length within the
    /// configured bounds.
    pub open spec fn well_formed(self) -> bool {
        &&& self.bot_token@.len() > 0
        &&& self.min_password_length >= 1
        &&& self.min_password_length <= self.max_password_length
        &&& self.min_password_length <= self.default_password_length
        &&& self.default_password_length <= self.max_password_length
    }

    /// Validate the given settings and assemble a configuration from them.
    ///
    /// Succeeds exactly on settings that satisfy [`Config::well_formed`];
    /// each error names the first violated constraint, checked in the order
    /// token, minimum, maximum, default.
    pub fn new(
        bot_token: String,
        default_password_length: usize,
        max_password_length: usize,
        min_password_length: usize,
        rate_limit_per_minute: usize,
    ) -> (r: Result<Config, ConfigError>)
        ensures
            match r {
                Ok(c) => {
                    &&& c.well_formed()
                    &&& c.bot_token == bot_token
                    &&& c.default_password_length == default_password_length
                    &&& c.max_password_length == max_password_length
                    &&& c.min_password_length == min_password_length
                    &&& c.rate_limit_per_minute == rate_limit_per_minute
                },
                Err(ConfigError::EmptyToken) => bot_token@.len() == 0,
                Err(ConfigError::ZeroMinLength) => {
                    &&& bot_token@.len() > 0
                    &&& min_password_length == 0
                },
                Err(ConfigError::MaxBelowMin) => {
                    &&& bot_token@.len() > 0
                    &&& min_password_length >= 1
                    &&& max_password_length < min_password_length
                },
                Err(ConfigError::DefaultOutOfRange) => {
                    &&& bot_token@.len() > 0
                    &&& min_password_length >= 1
                    &&& min_password_length <= max_password_length
                    &&& (default_password_length < min_password_length
                        || default_password_length > max_password_length)
                },
            },
    {
        if bot_token.as_str().is_empty() {
            return Err(ConfigError::EmptyToken);
        }
        if min_password_length == 0 {
            return Err(ConfigError::ZeroMinLength);
        }
        if max_password_length < min_password_length {
            return Err(ConfigError::MaxBelowMin);
        }
        if default_password_length < min_password_length
            || default_password_length > max_password_length {
            return Err(ConfigError::DefaultOutOfRange);
        }
        Ok(Config {
            bot_token,
            default_password_length,
            max_password_length,
            min_password_length,
            rate_limit_per_minute,
        })
    }
}

} // verus!
