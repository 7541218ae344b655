use password_bot::args::parse_password_args;
use password_bot::config::Config;
use password_bot::error::{GenerationError, ParseError};
use password_bot::request::{interpret_callback, resolve_request, CallbackAction, RequestError};

#[test]
fn test_parse_password_args_default() {
    let config = parse_password_args("", 16).unwrap();
    assert_eq!(config.length, 16);
    assert!(config.use_lowercase);
    assert!(config.use_uppercase);
    assert!(config.use_digits);
    assert!(config.use_symbols);
}

#[test]
fn test_parse_password_args_with_length() {
    let config = parse_password_args("24", 16).unwrap();
    assert_eq!(config.length, 24);
}

#[test]
fn test_parse_password_args_with_options() {
    let config = parse_password_args("20 --no-symbols --no-ambiguous", 16).unwrap();
    assert_eq!(config.length, 20);
    assert!(!config.use_symbols);
    assert!(config.exclude_ambiguous);
}

#[test]
fn test_parse_password_args_invalid_length() {
    let result = parse_password_args("abc", 16);
    assert!(result.is_err());
}

#[test]
fn test_parse_password_args_unknown_option() {
    let result = parse_password_args("--invalid", 16);
    assert!(result.is_err());
}

#[test]
fn test_parse_error_kinds() {
    assert_eq!(
        parse_password_args("abc", 16),
        Err(ParseError::InvalidLength)
    );
    assert_eq!(
        parse_password_args("--invalid", 16),
        Err(ParseError::UnrecognizedOption)
    );
    // The first offending token decides.
    assert_eq!(
        parse_password_args("abc --invalid", 16),
        Err(ParseError::InvalidLength)
    );
}

#[test]
fn test_parse_enables_and_disables() {
    let config = parse_password_args("--no-lowercase --no-uppercase --no-digits", 16).unwrap();
    assert!(!config.use_lowercase);
    assert!(!config.use_uppercase);
    assert!(!config.use_digits);
    assert!(config.use_symbols);

    let config = parse_password_args("--no-symbols --symbols", 16).unwrap();
    assert!(config.use_symbols);

    // A leading plus sign is accepted, like the standard parser does.
    let config = parse_password_args("+24", 16).unwrap();
    assert_eq!(config.length, 24);

    // An overflowing length is an invalid length, not a panic.
    assert_eq!(
        parse_password_args("99999999999999999999999999", 16),
        Err(ParseError::InvalidLength)
    );
}

#[test]
fn test_resolve_request_ok() {
    let limits = Config::new("test_token".to_string(), 16, 64, 8, 10).unwrap();
    let config = resolve_request("20 --no-ambiguous", &limits).unwrap();
    assert_eq!(config.length, 20);
    assert!(config.exclude_ambiguous);
}

#[test]
fn test_resolve_request_errors() {
    let limits = Config::new("test_token".to_string(), 16, 64, 8, 10).unwrap();
    assert_eq!(resolve_request("4", &limits), Err(RequestError::TooShort));
    assert_eq!(resolve_request("100", &limits), Err(RequestError::TooLong));
    assert_eq!(
        resolve_request("--what", &limits),
        Err(RequestError::BadArguments(ParseError::UnrecognizedOption))
    );
    assert_eq!(
        resolve_request(
            "--no-lowercase --no-uppercase --no-digits --no-symbols",
            &limits
        ),
        Err(RequestError::Rejected(GenerationError::NoCharacterClass))
    );
}

#[test]
fn test_interpret_callback() {
    match interpret_callback("pass_default") {
        CallbackAction::Generate(args) => assert_eq!(args, ""),
        _ => panic!("expected a generation action"),
    }
    match interpret_callback("pass_24") {
        CallbackAction::Generate(args) => assert_eq!(args, "24"),
        _ => panic!("expected a generation action"),
    }
    match interpret_callback("pass_no_ambiguous") {
        CallbackAction::Generate(args) => assert_eq!(args, "18 --no-ambiguous"),
        _ => panic!("expected a generation action"),
    }
    assert!(matches!(
        interpret_callback("pass_custom"),
        CallbackAction::PromptCustom
    ));
    assert!(matches!(
        interpret_callback("show_help"),
        CallbackAction::ShowHelp
    ));
    assert!(matches!(
        interpret_callback("something_else"),
        CallbackAction::Ignore
    ));
}
