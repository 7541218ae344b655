use password_bot::error::GenerationError;
use password_bot::password::{generate_password, PasswordConfig};
use rand::rngs::OsRng;

#[test]
fn test_default_config() {
    let config = PasswordConfig::default();
    assert!(config.validate().is_ok());
    assert!(config.length > 0);
    assert!(
        config.use_lowercase || config.use_uppercase || config.use_digits || config.use_symbols
    );
}

#[test]
fn test_password_length() {
    let config = PasswordConfig {
        length: 20,
        ..Default::default()
    };
    let mut rng = OsRng;
    let password = generate_password(&config, &mut rng).unwrap();
    assert_eq!(password.len(), 20);
}

#[test]
fn test_password_contains_required_types() {
    let config = PasswordConfig {
        length: 16,
        use_lowercase: true,
        use_uppercase: true,
        use_digits: true,
        use_symbols: false,
        exclude_ambiguous: false,
    };
    let mut rng = OsRng;
    let password = generate_password(&config, &mut rng).unwrap();

    let has_lowercase = password.chars().any(|c| c.is_ascii_lowercase());
    let has_uppercase = password.chars().any(|c| c.is_ascii_uppercase());
    let has_digit = password.chars().any(|c| c.is_ascii_digit());

    assert!(has_lowercase, "Password should contain lowercase");
    assert!(has_uppercase, "Password should contain uppercase");
    assert!(has_digit, "Password should contain digit");
}

#[test]
fn test_no_ambiguous_characters() {
    let config = PasswordConfig {
        length: 20,
        use_lowercase: true,
        use_uppercase: true,
        use_digits: true,
        use_symbols: false,
        exclude_ambiguous: true,
    };
    let mut rng = OsRng;
    let password = generate_password(&config, &mut rng).unwrap();

    let ambiguous = ['0', 'O', 'o', '1', 'l', 'I'];
    for c in password.chars() {
        assert!(!ambiguous.contains(&c), "Found ambiguous character: {}", c);
    }
}

#[test]
fn test_invalid_config_no_char_types() {
    let config = PasswordConfig {
        length: 16,
        use_lowercase: false,
        use_uppercase: false,
        use_digits: false,
        use_symbols: false,
        exclude_ambiguous: false,
    };
    assert!(config.validate().is_err());
}

#[test]
fn test_invalid_config_zero_length() {
    let config = PasswordConfig {
        length: 0,
        ..Default::default()
    };
    assert!(config.validate().is_err());
}

#[test]
fn test_char_pool_building() {
    let config = PasswordConfig {
        length: 10,
        use_lowercase: true,
        use_uppercase: false,
        use_digits: true,
        use_symbols: false,
        exclude_ambiguous: false,
    };
    let pool = config.build_char_pool();
    assert!(pool.len() > 0);
    assert!(pool.iter().any(|c| c.is_ascii_lowercase()));
    assert!(pool.iter().any(|c| c.is_ascii_digit()));
    assert!(!pool.iter().any(|c| c.is_ascii_uppercase()));
}

#[test]
fn test_pool_sizes() {
    let all = PasswordConfig::default();
    assert_eq!(all.build_char_pool().len(), 86);

    let lowercase_only = PasswordConfig {
        length: 6,
        use_lowercase: true,
        use_uppercase: false,
        use_digits: false,
        use_symbols: false,
        exclude_ambiguous: false,
    };
    assert_eq!(lowercase_only.build_char_pool().len(), 26);

    // Filtering removes o and l from lowercase, O and I from uppercase,
    // 0 and 1 from digits; symbols are never filtered.
    let filtered = PasswordConfig {
        exclude_ambiguous: true,
        ..Default::default()
    };
    assert_eq!(filtered.build_char_pool().len(), 24 + 24 + 8 + 24);
}

#[test]
fn test_generation_error_kinds() {
    let mut rng = OsRng;

    let zero = PasswordConfig {
        length: 0,
        ..Default::default()
    };
    assert_eq!(
        generate_password(&zero, &mut rng),
        Err(GenerationError::InvalidLength)
    );

    let no_classes = PasswordConfig {
        length: 8,
        use_lowercase: false,
        use_uppercase: false,
        use_digits: false,
        use_symbols: false,
        exclude_ambiguous: false,
    };
    assert_eq!(
        generate_password(&no_classes, &mut rng),
        Err(GenerationError::NoCharacterClass)
    );

    // Four required groups cannot fit in two characters.
    let too_short = PasswordConfig {
        length: 2,
        ..Default::default()
    };
    assert_eq!(
        generate_password(&too_short, &mut rng),
        Err(GenerationError::LengthTooShortForClasses)
    );
}

#[test]
fn test_symbols_always_present_when_enabled() {
    let config = PasswordConfig {
        length: 4,
        ..Default::default()
    };
    let symbols: Vec<char> = "!@#$%^&*()-_=+[]{};:,.?/".chars().collect();
    let mut rng = OsRng;
    for _ in 0..20 {
        let password = generate_password(&config, &mut rng).unwrap();
        assert!(password.chars().any(|c| symbols.contains(&c)));
    }
}

#[test]
fn test_shuffled_positions() {
    // Required groups are drawn in class order (lowercase first), so
    // without the final shuffle the first character would always be a
    // lowercase letter. Across many generations a digit must show up in
    // first position.
    let config = PasswordConfig {
        length: 16,
        use_lowercase: true,
        use_uppercase: false,
        use_digits: true,
        use_symbols: false,
        exclude_ambiguous: false,
    };
    let mut rng = OsRng;
    let mut digit_first = 0usize;
    for _ in 0..300 {
        let password = generate_password(&config, &mut rng).unwrap();
        if password.chars().next().unwrap().is_ascii_digit() {
            digit_first += 1;
        }
    }
    assert!(digit_first > 0, "first position never held a digit");
}
