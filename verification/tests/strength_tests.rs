use password_bot::password::{generate_password, PasswordConfig};
use password_bot::strength::{
    entropy_decibits, estimate_strength, format_metadata, PasswordStrength,
};
use rand::rngs::OsRng;

#[test]
fn test_strength_estimation() {
    // Strong password
    let strong_config = PasswordConfig {
        length: 20,
        ..Default::default()
    };
    assert_eq!(estimate_strength(&strong_config), PasswordStrength::Strong);

    // Weak password
    let weak_config = PasswordConfig {
        length: 6,
        use_lowercase: true,
        use_uppercase: false,
        use_digits: false,
        use_symbols: false,
        exclude_ambiguous: false,
    };
    assert_eq!(estimate_strength(&weak_config), PasswordStrength::Weak);
}

#[test]
fn test_entropy_scenarios() {
    // All four classes: pool size 86; at length 20 the entropy is about
    // 20 * log2(86), far above the strong threshold.
    let config = PasswordConfig {
        length: 20,
        ..Default::default()
    };
    assert_eq!(config.build_char_pool().len(), 86);
    assert_eq!(estimate_strength(&config), PasswordStrength::Strong);

    // Lowercase only at length 6: about 28.2 bits, weak.
    let weak = PasswordConfig {
        length: 6,
        use_lowercase: true,
        use_uppercase: false,
        use_digits: false,
        use_symbols: false,
        exclude_ambiguous: false,
    };
    assert_eq!(weak.build_char_pool().len(), 26);
    assert_eq!(entropy_decibits(&weak), 282); // floor(60 * log2(26)) == 282
    assert_eq!(estimate_strength(&weak), PasswordStrength::Weak);

    // The figure is exact over the whole product, so the fractional
    // per-character entropy keeps accumulating: 1000 * log2(86) = 6426.2...
    let long = PasswordConfig {
        length: 100,
        ..Default::default()
    };
    assert_eq!(entropy_decibits(&long), 6426);
}

#[test]
fn test_entropy_rounds_to_nearest() {
    // Symbols only at length 1: log2(24) = 4.58..., which rounds up to
    // 4.6 bits (46 tenths), not down to 4.5.
    let symbols = PasswordConfig {
        length: 1,
        use_lowercase: false,
        use_uppercase: false,
        use_digits: false,
        use_symbols: true,
        exclude_ambiguous: false,
    };
    assert_eq!(entropy_decibits(&symbols), 46);
    let line = format_metadata(&symbols, estimate_strength(&symbols));
    assert_eq!(
        line,
        "Length: 1 | Types: symbols | Pool size: 24 | Entropy: 4.6 bits | Strength: Weak"
    );

    // Digits only at length 8: 8 * log2(10) = 26.57..., rounding up.
    let digits = PasswordConfig {
        length: 8,
        use_lowercase: false,
        use_uppercase: false,
        use_digits: true,
        use_symbols: false,
        exclude_ambiguous: false,
    };
    assert_eq!(entropy_decibits(&digits), 266);
}

#[test]
fn test_strength_boundaries() {
    // Digits only, ambiguous filtered: pool of 8 characters, exactly 3
    // bits per character. 16 characters give 48 bits (weak); 17 give 51
    // bits (medium); 27 give 81 bits (strong); 26 give 78 (medium).
    let digits = |length| PasswordConfig {
        length,
        use_lowercase: false,
        use_uppercase: false,
        use_digits: true,
        use_symbols: false,
        exclude_ambiguous: true,
    };
    assert_eq!(digits(16).build_char_pool().len(), 8);
    assert_eq!(estimate_strength(&digits(16)), PasswordStrength::Weak);
    assert_eq!(estimate_strength(&digits(17)), PasswordStrength::Medium);
    assert_eq!(estimate_strength(&digits(26)), PasswordStrength::Medium);
    assert_eq!(estimate_strength(&digits(27)), PasswordStrength::Strong);
}

#[test]
fn test_estimate_strength_is_pure() {
    let config = PasswordConfig {
        length: 12,
        ..Default::default()
    };
    let first = estimate_strength(&config);
    // Generating a password in between must not change the estimate: it
    // depends on the configuration alone.
    let mut rng = OsRng;
    let _ = generate_password(&config, &mut rng).unwrap();
    let second = estimate_strength(&config);
    assert_eq!(first, second);
}

#[test]
fn test_strength_labels() {
    assert_eq!(PasswordStrength::Weak.as_str(), "Weak");
    assert_eq!(PasswordStrength::Medium.as_str(), "Medium");
    assert_eq!(PasswordStrength::Strong.as_str(), "Strong");
}

#[test]
fn test_format_metadata_line() {
    let config = PasswordConfig::default();
    let strength = estimate_strength(&config);
    assert_eq!(strength, PasswordStrength::Strong);
    // Pool size 86 at length 16: the entropy is 16 * log2(86) = 102.82...
    // bits, so 1028 tenths of a bit.
    assert_eq!(entropy_decibits(&config), 1028);
    let line = format_metadata(&config, strength);
    assert_eq!(
        line,
        "Length: 16 | Types: lowercase, uppercase, digits, symbols | Pool size: 86 | \
         Entropy: 102.8 bits | Strength: Strong"
    );
}

#[test]
fn test_format_metadata_weak_line() {
    let config = PasswordConfig {
        length: 6,
        use_lowercase: true,
        use_uppercase: false,
        use_digits: false,
        use_symbols: false,
        exclude_ambiguous: false,
    };
    let line = format_metadata(&config, estimate_strength(&config));
    assert_eq!(
        line,
        "Length: 6 | Types: lowercase | Pool size: 26 | Entropy: 28.2 bits | Strength: Weak"
    );
}
