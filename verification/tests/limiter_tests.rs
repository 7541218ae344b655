use password_bot::config::Config;
use password_bot::error::{ConfigError, RateLimitError};
use password_bot::limiter::RateLimiter;

#[test]
fn test_rate_limiter() {
    let mut limiter = RateLimiter::default();
    let chat_id = 12345;

    // Should allow up to the limit
    for _ in 0..5 {
        assert!(limiter.check_rate_limit(chat_id, 5).is_ok());
    }

    // Should deny the next request
    assert!(limiter.check_rate_limit(chat_id, 5).is_err());
}

#[test]
fn test_sliding_window() {
    let mut limiter = RateLimiter::default();
    let key = 7;
    let start = 1_000_000;

    // Five requests within one second all pass with a limit of five.
    for i in 0..5 {
        assert!(limiter.check_rate_limit_at(key, 5, start + i * 200).is_ok());
    }
    // The sixth immediate request is refused.
    assert_eq!(
        limiter.check_rate_limit_at(key, 5, start + 1000),
        Err(RateLimitError::RateLimited)
    );
    // Just past sixty seconds after the first request, the window has
    // slid and a new request passes again.
    assert!(limiter.check_rate_limit_at(key, 5, start + 61_000).is_ok());
}

#[test]
fn test_window_boundary() {
    let mut limiter = RateLimiter::default();
    let key = 1;
    assert!(limiter.check_rate_limit_at(key, 1, 100_000).is_ok());
    // An instant exactly sixty seconds later still sees the first
    // request inside the trailing window.
    assert_eq!(
        limiter.check_rate_limit_at(key, 1, 160_000),
        Err(RateLimitError::RateLimited)
    );
    // One millisecond later it has left the window.
    assert!(limiter.check_rate_limit_at(key, 1, 160_001).is_ok());
}

#[test]
fn test_keys_are_independent() {
    let mut limiter = RateLimiter::default();
    let busy = 100;
    let quiet = 200;
    let now = 500_000;

    for i in 0..5 {
        assert!(limiter.check_rate_limit_at(busy, 5, now + i).is_ok());
    }
    assert!(limiter.check_rate_limit_at(busy, 5, now + 10).is_err());
    // Exhausting one key's allowance leaves the other key untouched.
    assert!(limiter.check_rate_limit_at(quiet, 5, now + 10).is_ok());
}

#[test]
fn test_clock_regression_stays_exact() {
    // A recorded instant that lies after a later call's instant is outside
    // that call's trailing window and is pruned like an expired one, so
    // the accounting stays exact even if the clock ran backwards.
    let mut limiter = RateLimiter::default();
    let key = 9;
    assert!(limiter.check_rate_limit_at(key, 1, 200_000).is_ok());
    // The window ending at 100_000 holds no recorded instant.
    assert!(limiter.check_rate_limit_at(key, 1, 100_000).is_ok());
    // Only 100_000 remains recorded; at 130_000 it is still in the window.
    assert_eq!(
        limiter.check_rate_limit_at(key, 1, 130_000),
        Err(RateLimitError::RateLimited)
    );
}

#[test]
fn test_zero_limit_refuses_all() {
    let mut limiter = RateLimiter::default();
    assert_eq!(
        limiter.check_rate_limit_at(5, 0, 1000),
        Err(RateLimitError::RateLimited)
    );
}

#[test]
fn test_config_validation() {
    // Test that default values are sensible
    let config = Config {
        bot_token: "test_token".to_string(),
        default_password_length: 16,
        max_password_length: 64,
        min_password_length: 8,
        rate_limit_per_minute: 10,
    };

    assert!(config.default_password_length >= config.min_password_length);
    assert!(config.default_password_length <= config.max_password_length);
    assert!(config.max_password_length >= config.min_password_length);
}

#[test]
fn test_config_new_errors() {
    assert!(matches!(
        Config::new(String::new(), 16, 64, 8, 10),
        Err(ConfigError::EmptyToken)
    ));
    assert!(matches!(
        Config::new("t".to_string(), 16, 64, 0, 10),
        Err(ConfigError::ZeroMinLength)
    ));
    assert!(matches!(
        Config::new("t".to_string(), 16, 4, 8, 10),
        Err(ConfigError::MaxBelowMin)
    ));
    assert!(matches!(
        Config::new("t".to_string(), 80, 64, 8, 10),
        Err(ConfigError::DefaultOutOfRange)
    ));
    let config = Config::new("t".to_string(), 16, 64, 8, 10).unwrap();
    assert_eq!(config.rate_limit_per_minute, 10);
}
