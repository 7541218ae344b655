//! The decision pipeline around one password request: interpreting inline
//! button callbacks and turning an argument string into a configuration
//! that respects the configured length bounds.

use vstd::prelude::*;

use crate::args::{parse_password_args, spec_parse_args};
use crate::config::Config;
use crate::error::{GenerationError, ParseError};
use crate::password::{PasswordConfig, spec_validate};

verus! {

/// The first reason to refuse a request, before any password is generated.
#[derive(Debug, Clone, Copy, PartialEq, Eq, Structural)]
pub enum RequestError {
    /// The argument string did not parse.
    BadArguments(ParseError),
    /// The requested length is below the configured minimum.
    TooShort,
    /// The requested length is above the configured maximum.
    TooLong,
    /// The parsed configuration is invalid.
    Rejected(GenerationError),
}

/// The outcome of preparing a request: the argument string is parsed
/// against the configured default length; the requested length must lie
/// within the configured bounds; and the configuration must pass
/// validation. The first violated condition decides the error.
pub open spec fn spec_resolve_request(args: Seq<char>, limits: Config) -> Result<
    PasswordConfig,
    RequestError,
> {
    match spec_parse_args(args, limits.default_password_length) {
        Err(e) => Err(RequestError::BadArguments(e)),
        Ok(c) => {
            if c.length < limits.min_password_length {
                Err(RequestError::TooShort)
            } else if c.length > limits.max_password_length {
                Err(RequestError::TooLong)
            } else {
                match spec_validate(c) {
                    Err(e) => Err(RequestError::Rejected(e)),
                    Ok(()) => Ok(c),
                }
            }
        },
    }
}

/// Turn the argument string of one request into a generation-ready
/// configuration, or the first reason to refuse it.
pub fn resolve_request(args: &str, limits: &Config) -> (r: Result<PasswordConfig, RequestError>)
    ensures
        r == spec_resolve_request(args@, *limits),
{
    let config = match parse_password_args(args, limits.default_password_length) {
        Err(e) => {
            return Err(RequestError::BadArguments(e));
        },
        Ok(c) => c,
    };
    if config.length < limits.min_password_length {
        return Err(RequestError::TooShort);
    }
    if config.length > limits.max_password_length {
        return Err(RequestError::TooLong);
    }
    match config.validate() {
        Err(e) => Err(RequestError::Rejected(e)),
        Ok(()) => Ok(config),
    }
}

/// What an inline-button callback asks for.
#[derive(Debug, Clone, Copy)]
pub enum CallbackAction {
    /// Generate a password from the given argument string.
    Generate(&'static str),
    /// Send the help text again.
    ShowHelp,
    /// Ask the user to type a custom command.
    PromptCustom,
    /// Not a known button; do nothing.
    Ignore,
}

fn str_eq(a: &str, b: &str) -> (r: bool)
    ensures
        r == (a@ == b@),
{
    let n = b.unicode_len();
    if a.unicode_len() != n {
        return false;
    }
    let mut i: usize = 0;
    while i < n
        invariant
            n == b@.len(),
            a@.len() == n,
            0 <= i <= n,
            forall|j: int| 0 <= j < i ==> a@[j] == b@[j],
        decreases n - i,
    {
        if a.get_char(i) != b.get_char(i) {
            return false;
        }
        i += 1;
    }
    proof {
        assert(a@ =~= b@);
    }
    true
}

/// Interpret the data of an inline-button callback: each known button maps
/// to a fixed argument string, the help and custom buttons to their own
/// actions, and anything else is ignored.
pub fn interpret_callback(data: &str) -> (a: CallbackAction)
    ensures
        data@ == "pass_default"@ ==> (a matches CallbackAction::Generate(s) && s@ == ""@),
        data@ == "pass_24"@ ==> (a matches CallbackAction::Generate(s) && s@ == "24"@),
        data@ == "pass_32"@ ==> (a matches CallbackAction::Generate(s) && s@ == "32"@),
        data@ == "pass_no_symbols"@ ==> (a matches CallbackAction::Generate(s) && s@
            == "16 --no-symbols"@),
        data@ == "pass_no_ambiguous"@ ==> (a matches CallbackAction::Generate(s) && s@
            == "18 --no-ambiguous"@),
        data@ == "pass_custom"@ ==> a is PromptCustom,
        data@ == "show_help"@ ==> a is ShowHelp,
        (data@ != "pass_default"@ && data@ != "pass_24"@ && data@ != "pass_32"@ && data@
            != "pass_no_symbols"@ && data@ != "pass_no_ambiguous"@ && data@ != "pass_custom"@
            && data@ != "show_help"@) ==> a is Ignore,
{
    proof {
        reveal_strlit("pass_default");
        reveal_strlit("pass_24");
        reveal_strlit("pass_32");
        reveal_strlit("pass_no_symbols");
        reveal_strlit("pass_no_ambiguous");
        reveal_strlit("pass_custom");
        reveal_strlit("show_help");
        assert("pass_default"@.len() == 12);
        assert("pass_24"@.len() == 7);
        assert("pass_32"@.len() == 7);
        assert("pass_no_symbols"@.len() == 15);
        assert("pass_no_ambiguous"@.len() == 17);
        assert("pass_custom"@.len() == 11);
        assert("show_help"@.len() == 9);
        assert(("pass_24"@)[5] == '2');
        assert(("pass_32"@)[5] == '3');
    }
    if str_eq(data, "pass_default") {
        CallbackAction::Generate("")
    } else if str_eq(data, "pass_24") {
        CallbackAction::Generate("24")
    } else if str_eq(data, "pass_32") {
        CallbackAction::Generate("32")
    } else if str_eq(data, "pass_no_symbols") {
        CallbackAction::Generate("16 --no-symbols")
    } else if str_eq(data, "pass_no_ambiguous") {
        CallbackAction::Generate("18 --no-ambiguous")
    } else if str_eq(data, "pass_custom") {
        CallbackAction::PromptCustom
    } else if str_eq(data, "show_help") {
        CallbackAction::ShowHelp
    } else {
        CallbackAction::Ignore
    }
}

} // verus!
