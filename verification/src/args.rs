//! Parsing of password generation command arguments.
//!
//! The expected form is `[length] [--option1] [--option2] ...`: tokens are
//! separated by whitespace; a token starting with `--` switches a character
//! class on or off or enables ambiguous-character filtering; any other
//! token must be a decimal length. Parsing starts from the default
//! configuration at the caller's default length and folds the tokens over
//! it, left to right, stopping at the first offending token.

use vstd::prelude::*;

use crate::error::ParseError;
use crate::password::{PasswordConfig, spec_default_config};

verus! {

/// Whether `c` is a whitespace character (the White_Space set that
/// `str::split_whitespace` splits on).
pub open spec fn is_space(c: char) -> bool {
    ||| c == ' '
    ||| c == '\t'
    ||| c == '\n'
    ||| c == '\u{b}'
    ||| c == '\u{c}'
    ||| c == '\r'
    ||| c == '\u{85}'
    ||| c == '\u{a0}'
    ||| c == '\u{1680}'
    ||| c == '\u{2000}'
    ||| c == '\u{2001}'
    ||| c == '\u{2002}'
    ||| c == '\u{2003}'
    ||| c == '\u{2004}'
    ||| c == '\u{2005}'
    ||| c == '\u{2006}'
    ||| c == '\u{2007}'
    ||| c == '\u{2008}'
    ||| c == '\u{2009}'
    ||| c == '\u{200a}'
    ||| c == '\u{2028}'
    ||| c == '\u{2029}'
    ||| c == '\u{202f}'
    ||| c == '\u{205f}'
    ||| c == '\u{3000}'
}

fn is_space_char(c: char) -> (b: bool)
    ensures
        b == is_space(c),
{
    c == ' ' || c == '\t' || c == '\n' || c == '\u{b}' || c == '\u{c}' || c == '\r'
        || c == '\u{85}' || c == '\u{a0}' || c == '\u{1680}' || c == '\u{2000}' || c == '\u{2001}'
        || c == '\u{2002}' || c == '\u{2003}' || c == '\u{2004}' || c == '\u{2005}'
        || c == '\u{2006}' || c == '\u{2007}' || c == '\u{2008}' || c == '\u{2009}'
        || c == '\u{200a}' || c == '\u{2028}' || c == '\u{2029}' || c == '\u{202f}'
        || c == '\u{205f}' || c == '\u{3000}'
}

/// One step of whitespace splitting over the pair of finished tokens and
/// the token under construction: a space closes the current token if it is
/// non-empty; any other character extends it.
pub open spec fn tok_step(
    acc: (Seq<Seq<char>>, Seq<char>),
    c: char,
) -> (Seq<Seq<char>>, Seq<char>) {
    if is_space(c) {
        if acc.1.len() > 0 {
            (acc.0.push(acc.1), Seq::<char>::empty())
        } else {
            acc
        }
    } else {
        (acc.0, acc.1.push(c))
    }
}

/// The splitting state after reading the first `i` characters of `s`.
pub open spec fn tok_fold(s: Seq<char>, i: int) -> (Seq<Seq<char>>, Seq<char>)
    decreases i,
{
    if i <= 0 {
        (Seq::<Seq<char>>::empty(), Seq::<char>::empty())
    } else {
        tok_step(tok_fold(s, i - 1), s[i - 1])
    }
}

/// The whitespace-separated tokens of `s`, in order.
pub open spec fn spec_tokens(s: Seq<char>) -> Seq<Seq<char>> {
    let (ts, last) = tok_fold(s, s.len() as int);
    if last.len() > 0 {
        ts.push(last)
    } else {
        ts
    }
}

/// Split `s` at whitespace into its tokens.
fn split_whitespace_chars(s: &str) -> (tokens: Vec<Vec<char>>)
    ensures
        tokens@.len() == spec_tokens(s@).len(),
        forall|j: int| 0 <= j < tokens@.len() ==> #[trigger] tokens@[j]@ == spec_tokens(s@)[j],
{
    let n = s.unicode_len();
    let mut tokens: Vec<Vec<char>> = Vec::new();
    let mut cur: Vec<char> = Vec::new();
    let mut i: usize = 0;
    while i < n
        invariant
            n == s@.len(),
            0 <= i <= n,
            tokens@.len() == tok_fold(s@, i as int).0.len(),
            forall|j: int|
                0 <= j < tokens@.len() ==> #[trigger] tokens@[j]@ == tok_fold(s@, i as int).0[j],
            cur@ == tok_fold(s@, i as int).1,
        decreases n - i,
    {
        let c = s.get_char(i);
        if is_space_char(c) {
            if cur.len() > 0 {
                tokens.push(cur);
                cur = Vec::new();
            }
        } else {
            cur.push(c);
        }
        i += 1;
    }
    if cur.len() > 0 {
        tokens.push(cur);
    }
    tokens
}

/// Whether `c` is a decimal digit.
pub open spec fn is_digit(c: char) -> bool {
    ||| c == '0'
    ||| c == '1'
    ||| c == '2'
    ||| c == '3'
    ||| c == '4'
    ||| c == '5'
    ||| c == '6'
    ||| c == '7'
    ||| c == '8'
    ||| c == '9'
}

/// The value of a decimal digit character; zero for any other character.
pub open spec fn digit_val(c: char) -> int {
    if c == '1' {
        1
    } else if c == '2' {
        2
    } else if c == '3' {
        3
    } else if c == '4' {
        4
    } else if c == '5' {
        5
    } else if c == '6' {
        6
    } else if c == '7' {
        7
    } else if c == '8' {
        8
    } else if c == '9' {
        9
    } else {
        0
    }
}

/// Whether every character of `s` is a decimal digit.
pub open spec fn all_digits(s: Seq<char>) -> bool {
    forall|i: int| 0 <= i < s.len() ==> is_digit(#[trigger] s[i])
}

/// The numeric value of a digit string, most significant digit first.
pub open spec fn digits_val(s: Seq<char>) -> int
    decreases s.len(),
{
    if s.len() == 0 {
        0
    } else {
        digits_val(s.drop_last()) * 10 + digit_val(s.last())
    }
}

/// The value of a token as the standard `usize` parser accepts it: an
/// optional leading plus sign, then at least one decimal digit, with the
/// value fitting the machine word.
pub open spec fn spec_parse_usize(t: Seq<char>) -> Option<usize> {
    let body = if t.len() > 0 && t[0] == '+' {
        t.drop_first()
    } else {
        t
    };
    if body.len() > 0 && all_digits(body) && digits_val(body) <= usize::MAX {
        Some(digits_val(body) as usize)
    } else {
        None
    }
}

proof fn lemma_digits_val_nonneg(s: Seq<char>)
    ensures
        digits_val(s) >= 0,
    decreases s.len(),
{
    if s.len() > 0 {
        lemma_digits_val_nonneg(s.drop_last());
    }
}

/// Reading further digits never decreases the value.
proof fn lemma_digits_val_monotone(s: Seq<char>, k: int)
    requires
        0 <= k <= s.len(),
    ensures
        digits_val(s) >= digits_val(s.take(k)),
    decreases s.len() - k,
{
    if k < s.len() {
        assert(s.take(k + 1).drop_last() =~= s.take(k));
        assert(s.take(k + 1).last() == s[k]);
        lemma_digits_val_nonneg(s.take(k));
        lemma_digits_val_monotone(s, k + 1);
    } else {
        assert(s.take(k) =~= s);
    }
}

/// The digit value of `c`, or nothing if `c` is not a digit.
fn digit_of(c: char) -> (d: Option<usize>)
    ensures
        match d {
            Some(v) => is_digit(c) && v == digit_val(c),
            None => !is_digit(c),
        },
{
    if c == '0' {
        Some(0)
    } else if c == '1' {
        Some(1)
    } else if c == '2' {
        Some(2)
    } else if c == '3' {
        Some(3)
    } else if c == '4' {
        Some(4)
    } else if c == '5' {
        Some(5)
    } else if c == '6' {
        Some(6)
    } else if c == '7' {
        Some(7)
    } else if c == '8' {
        Some(8)
    } else if c == '9' {
        Some(9)
    } else {
        None
    }
}

/// Parse a token as a `usize`, exactly as the standard parser would.
fn parse_usize_chars(t: &Vec<char>) -> (r: Option<usize>)
    ensures
        r == spec_parse_usize(t@),
{
    let has_sign = t.len() > 0 && t[0] == '+';
    let start: usize = if has_sign {
        1
    } else {
        0
    };
    let ghost body = if has_sign {
        t@.drop_first()
    } else {
        t@
    };
    proof {
        assert(body.len() == t@.len() - start);
        assert(forall|j: int| 0 <= j < body.len() ==> body[j] == t@[j + start]);
    }
    if t.len() == start {
        return None;
    }
    let mut acc: usize = 0;
    let mut i: usize = start;
    while i < t.len()
        invariant
            start <= i <= t@.len(),
            start <= 1,
            body == (if t@.len() > 0 && t@[0] == '+' {
                t@.drop_first()
            } else {
                t@
            }),
            body.len() == t@.len() - start,
            forall|j: int| 0 <= j < body.len() ==> body[j] == t@[j + start],
            all_digits(body.take(i - start)),
            acc == digits_val(body.take(i - start)),
        decreases t@.len() - i,
    {
        let c = t[i];
        proof {
            assert(body[i - start] == c);
            assert(body.take(i - start + 1).drop_last() =~= body.take(i - start));
            assert(body.take(i - start + 1).last() == c);
        }
        match digit_of(c) {
            None => {
                proof {
                    assert(!all_digits(body));
                }
                return None;
            },
            Some(d) => {
                if acc > (usize::MAX - d) / 10 {
                    proof {
                        lemma_digits_val_monotone(body, i - start + 1);
                    }
                    return None;
                }
                acc = acc * 10 + d;
            },
        }
        i += 1;
    }
    proof {
        assert(body.take(t@.len() - start) =~= body);
    }
    Some(acc)
}

/// Whether the token equals the given literal, character for character.
fn token_eq(tok: &Vec<char>, lit: &str) -> (b: bool)
    ensures
        b == (tok@ == lit@),
{
    let n = lit.unicode_len();
    if tok.len() != n {
        return false;
    }
    let mut i: usize = 0;
    while i < n
        invariant
            n == lit@.len(),
            tok@.len() == n,
            0 <= i <= n,
            forall|j: int| 0 <= j < i ==> tok@[j] == lit@[j],
        decreases n - i,
    {
        if tok[i] != lit.get_char(i) {
            return false;
        }
        i += 1;
    }
    proof {
        assert(tok@ =~= lit@);
    }
    true
}

/// The effect of one token on the configuration being built: the known
/// options switch their class, any other token starting with `--` is
/// unrecognized, and every remaining token must be a decimal length.
pub open spec fn apply_token(c: PasswordConfig, t: Seq<char>) -> Result<
    PasswordConfig,
    ParseError,
> {
    if t == "--symbols"@ {
        Ok(PasswordConfig { use_symbols: true, ..c })
    } else if t == "--no-symbols"@ {
        Ok(PasswordConfig { use_symbols: false, ..c })
    } else if t == "--digits"@ {
        Ok(PasswordConfig { use_digits: true, ..c })
    } else if t == "--no-digits"@ {
        Ok(PasswordConfig { use_digits: false, ..c })
    } else if t == "--uppercase"@ {
        Ok(PasswordConfig { use_uppercase: true, ..c })
    } else if t == "--no-uppercase"@ {
        Ok(PasswordConfig { use_uppercase: false, ..c })
    } else if t == "--lowercase"@ {
        Ok(PasswordConfig { use_lowercase: true, ..c })
    } else if t == "--no-lowercase"@ {
        Ok(PasswordConfig { use_lowercase: false, ..c })
    } else if t == "--no-ambiguous"@ {
        Ok(PasswordConfig { exclude_ambiguous: true, ..c })
    } else if t.len() >= 2 && t[0] == '-' && t[1] == '-' {
        Err(ParseError::UnrecognizedOption)
    } else {
        match spec_parse_usize(t) {
            Some(n) => Ok(PasswordConfig { length: n, ..c }),
            None => Err(ParseError::InvalidLength),
        }
    }
}

/// The result of folding the tokens over `c0`, left to right; the first
/// offending token decides the error.
pub open spec fn parse_fold(c0: PasswordConfig, toks: Seq<Seq<char>>) -> Result<
    PasswordConfig,
    ParseError,
>
    decreases toks.len(),
{
    if toks.len() == 0 {
        Ok(c0)
    } else {
        match parse_fold(c0, toks.drop_last()) {
            Ok(c) => apply_token(c, toks.last()),
            Err(e) => Err(e),
        }
    }
}

/// What parsing the whole argument string yields: the default
/// configuration at `default_length`, folded over the tokens of `s`.
pub open spec fn spec_parse_args(s: Seq<char>, default_length: usize) -> Result<
    PasswordConfig,
    ParseError,
> {
    parse_fold(
        PasswordConfig { length: default_length, ..spec_default_config() },
        spec_tokens(s),
    )
}

/// An error keeps the fold's outcome whatever tokens follow.
proof fn lemma_parse_fold_err(c0: PasswordConfig, toks: Seq<Seq<char>>, k: int)
    requires
        0 <= k <= toks.len(),
        parse_fold(c0, toks.take(k)) is Err,
    ensures
        parse_fold(c0, toks) == parse_fold(c0, toks.take(k)),
    decreases toks.len() - k,
{
    if k < toks.len() {
        assert(toks.take(k + 1).drop_last() =~= toks.take(k));
        lemma_parse_fold_err(c0, toks, k + 1);
    } else {
        assert(toks.take(k) =~= toks);
    }
}

/// Parse password generation command arguments.
///
/// Tokens are applied left to right to the default configuration at
/// `default_length`; the first unrecognized option or invalid length
/// decides the error.
pub fn parse_password_args(args: &str, default_length: usize) -> (r: Result<
    PasswordConfig,
    ParseError,
>)
    ensures
        r == spec_parse_args(args@, default_length),
{
    let mut config = PasswordConfig::default();
    config.length = default_length;
    let ghost c0 = PasswordConfig { length: default_length, ..spec_default_config() };
    let tokens = split_whitespace_chars(args);
    let ghost toks = spec_tokens(args@);
    let mut i: usize = 0;
    while i < tokens.len()
        invariant
            toks == spec_tokens(args@),
            c0 == (PasswordConfig { length: default_length, ..spec_default_config() }),
            tokens@.len() == toks.len(),
            forall|j: int| 0 <= j < tokens@.len() ==> #[trigger] tokens@[j]@ == toks[j],
            0 <= i <= toks.len(),
            parse_fold(c0, toks.take(i as int)) == Ok::<PasswordConfig, ParseError>(config),
        decreases toks.len() - i,
    {
        let tok = &tokens[i];
        proof {
            assert(toks.take(i as int + 1).drop_last() =~= toks.take(i as int));
            assert(toks.take(i as int + 1).last() == toks[i as int]);
            assert(tok@ == toks[i as int]);
        }
        if token_eq(tok, "--symbols") {
            config.use_symbols = true;
        } else if token_eq(tok, "--no-symbols") {
            config.use_symbols = false;
        } else if token_eq(tok, "--digits") {
            config.use_digits = true;
        } else if token_eq(tok, "--no-digits") {
            config.use_digits = false;
        } else if token_eq(tok, "--uppercase") {
            config.use_uppercase = true;
        } else if token_eq(tok, "--no-uppercase") {
            config.use_uppercase = false;
        } else if token_eq(tok, "--lowercase") {
            config.use_lowercase = true;
        } else if token_eq(tok, "--no-lowercase") {
            config.use_lowercase = false;
        } else if token_eq(tok, "--no-ambiguous") {
            config.exclude_ambiguous = true;
        } else if tok.len() >= 2 && tok[0] == '-' && tok[1] == '-' {
            proof {
                lemma_parse_fold_err(c0, toks, i as int + 1);
            }
            return Err(ParseError::UnrecognizedOption);
        } else {
            match parse_usize_chars(tok) {
                Some(n) => {
                    config.length = n;
                },
                None => {
                    proof {
                        lemma_parse_fold_err(c0, toks, i as int + 1);
                    }
                    return Err(ParseError::InvalidLength);
                },
            }
        }
        i += 1;
    }
    proof {
        assert(toks.take(toks.len() as int) =~= toks);
    }
    Ok(config)
}

} // verus!
