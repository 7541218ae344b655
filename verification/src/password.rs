//! Password generation and strength estimation.
//!
//! The character pool and the required character groups are derived from a
//! [`PasswordConfig`]; generation samples every character through a
//! cryptographically secure source and guarantees at least one character from
//! each enabled class. Strength is scored from the exact entropy of the
//! configuration, compared against fixed thresholds.

use vstd::prelude::*;
use vstd::seq_lib::*;

use crate::csprng::draw_index;
use crate::csprng::shuffle_chars;
use crate::error::GenerationError;

verus! {

/// Configuration for password generation.
#[derive(Debug, Clone, PartialEq, Eq, Structural)]
pub struct PasswordConfig {
    /// Length of the password to generate.
    pub length: usize,
    /// Include lowercase letters (a-z).
    pub use_lowercase: bool,
    /// Include uppercase letters (A-Z).
    pub use_uppercase: bool,
    /// Include digits (0-9).
    pub use_digits: bool,
    /// Include symbols (!@#$%^&*...).
    pub use_symbols: bool,
    /// Exclude ambiguous characters (0, O, o, 1, l, I).
    pub exclude_ambiguous: bool,
}

/// The lowercase base alphabet, 26 letters in order.
pub open spec fn lowercase_alphabet() -> Seq<char> {
    "abcdefghijklmnopqrstuvwxyz"@
}

/// The uppercase base alphabet, 26 letters in order.
pub open spec fn uppercase_alphabet() -> Seq<char> {
    "ABCDEFGHIJKLMNOPQRSTUVWXYZ"@
}

/// The digit base alphabet, 10 digits in order.
pub open spec fn digit_alphabet() -> Seq<char> {
    "0123456789"@
}

/// The symbol base alphabet, a fixed 24-character punctuation set.
pub open spec fn symbol_alphabet() -> Seq<char> {
    "!@#$%^&*()-_=+[]{};:,.?/"@
}

/// Whether `c` is one of the six characters that are easily confused with
/// one another: 0, O, o, 1, l, I.
pub open spec fn is_ambiguous(c: char) -> bool {
    c == '0' || c == 'O' || c == 'o' || c == '1' || c == 'l' || c == 'I'
}

/// An alphabet after ambiguous-character filtering: the alphabet itself when
/// filtering is off, otherwise the subsequence of unambiguous characters.
pub open spec fn filtered_class(alphabet: Seq<char>, exclude_ambiguous: bool) -> Seq<char> {
    if exclude_ambiguous {
        alphabet.filter(|c: char| !is_ambiguous(c))
    } else {
        alphabet
    }
}

/// The full sampling pool of a configuration: the enabled alphabets after
/// ambiguous-character filtering, concatenated in the fixed class order
/// lowercase, uppercase, digits, symbols. The symbol alphabet is never
/// filtered.
pub open spec fn spec_pool(c: PasswordConfig) -> Seq<char> {
    (if c.use_lowercase {
        filtered_class(lowercase_alphabet(), c.exclude_ambiguous)
    } else {
        Seq::<char>::empty()
    }) + (if c.use_uppercase {
        filtered_class(uppercase_alphabet(), c.exclude_ambiguous)
    } else {
        Seq::<char>::empty()
    }) + (if c.use_digits {
        filtered_class(digit_alphabet(), c.exclude_ambiguous)
    } else {
        Seq::<char>::empty()
    }) + (if c.use_symbols {
        symbol_alphabet()
    } else {
        Seq::<char>::empty()
    })
}

/// The required character groups of a configuration: one filtered alphabet
/// per enabled class, in the fixed class order, kept only if non-empty after
/// filtering. The symbol group is included verbatim whenever symbols are
/// enabled.
pub open spec fn spec_required_groups(c: PasswordConfig) -> Seq<Seq<char>> {
    (if c.use_lowercase && filtered_class(lowercase_alphabet(), c.exclude_ambiguous).len() > 0 {
        seq![filtered_class(lowercase_alphabet(), c.exclude_ambiguous)]
    } else {
        Seq::<Seq<char>>::empty()
    }) + (if c.use_uppercase && filtered_class(uppercase_alphabet(), c.exclude_ambiguous).len() > 0 {
        seq![filtered_class(uppercase_alphabet(), c.exclude_ambiguous)]
    } else {
        Seq::<Seq<char>>::empty()
    }) + (if c.use_digits && filtered_class(digit_alphabet(), c.exclude_ambiguous).len() > 0 {
        seq![filtered_class(digit_alphabet(), c.exclude_ambiguous)]
    } else {
        Seq::<Seq<char>>::empty()
    }) + (if c.use_symbols {
        seq![symbol_alphabet()]
    } else {
        Seq::<Seq<char>>::empty()
    })
}

/// Whether at least one character class is enabled.
pub open spec fn some_class_enabled(c: PasswordConfig) -> bool {
    c.use_lowercase || c.use_uppercase || c.use_digits || c.use_symbols
}

/// Whether the password `p` contains at least one character of `group`.
pub open spec fn covers_group(p: Seq<char>, group: Seq<char>) -> bool {
    exists|i: int| 0 <= i < p.len() && group.contains(#[trigger] p[i])
}

/// The default configuration: 16 characters from all four classes, without
/// ambiguous-character filtering.
pub open spec fn spec_default_config() -> PasswordConfig {
    PasswordConfig {
        length: 16,
        use_lowercase: true,
        use_uppercase: true,
        use_digits: true,
        use_symbols: true,
        exclude_ambiguous: false,
    }
}

impl Default for PasswordConfig {
    /// The default configuration: 16 characters from all four classes,
    /// without ambiguous-character filtering.
    fn default() -> (c: Self)
        ensures
            c == spec_default_config(),
    {
        PasswordConfig {
            length: 16,
            use_lowercase: true,
            use_uppercase: true,
            use_digits: true,
            use_symbols: true,
            exclude_ambiguous: false,
        }
    }
}

fn lowercase_str() -> (s: &'static str)
    ensures
        s@ == lowercase_alphabet(),
{
    "abcdefghijklmnopqrstuvwxyz"
}

fn uppercase_str() -> (s: &'static str)
    ensures
        s@ == uppercase_alphabet(),
{
    "ABCDEFGHIJKLMNOPQRSTUVWXYZ"
}

fn digit_str() -> (s: &'static str)
    ensures
        s@ == digit_alphabet(),
{
    "0123456789"
}

fn symbol_str() -> (s: &'static str)
    ensures
        s@ == symbol_alphabet(),
{
    "!@#$%^&*()-_=+[]{};:,.?/"
}

/// Whether `c` is one of the six ambiguous characters.
fn is_ambiguous_char(c: char) -> (b: bool)
    ensures
        b == is_ambiguous(c),
{
    c == '0' || c == 'O' || c == 'o' || c == '1' || c == 'l' || c == 'I'
}

/// Append to `dst` the characters of `src`, filtered for ambiguity when
/// `exclude_ambiguous` is set.
fn append_filtered(dst: &mut Vec<char>, src: &str, exclude_ambiguous: bool)
    ensures
        final(dst)@ == old(dst)@ + filtered_class(src@, exclude_ambiguous),
{
    broadcast use Seq::<_>::push_distributes_over_add;

    let ghost dst0 = dst@;
    let n = src.unicode_len();
    let mut i: usize = 0;
    while i < n
        invariant
            n == src@.len(),
            0 <= i <= n,
            dst@ == dst0 + filtered_class(src@.take(i as int), exclude_ambiguous),
        decreases n - i,
    {
        let c = src.get_char(i);
        proof {
            let pred = (|ch: char| !is_ambiguous(ch));
            assert(src@.take(i as int + 1) =~= src@.take(i as int).push(c));
            src@.take(i as int).lemma_filter_push(c, pred);
        }
        if !exclude_ambiguous || !is_ambiguous_char(c) {
            dst.push(c);
        }
        i += 1;
    }
    assert(src@.take(n as int) =~= src@);
}

/// The outcome of validating a configuration: a zero length is reported
/// first, then a missing character class.
pub open spec fn spec_validate(c: PasswordConfig) -> Result<(), GenerationError> {
    if c.length == 0 {
        Err(GenerationError::InvalidLength)
    } else if !some_class_enabled(c) {
        Err(GenerationError::NoCharacterClass)
    } else {
        Ok(())
    }
}

impl PasswordConfig {
    /// Validate that the configuration is sensible: a positive length and at
    /// least one enabled character class.
    ///
    /// Returns `Ok` exactly when both hold; a zero length is reported before
    /// a missing character class.
    pub fn validate(&self) -> (r: Result<(), GenerationError>)
        ensures
            r == spec_validate(*self),
    {
        if self.length == 0 {
            return Err(GenerationError::InvalidLength);
        }
        if !self.use_lowercase && !self.use_uppercase && !self.use_digits && !self.use_symbols {
            return Err(GenerationError::NoCharacterClass);
        }
        Ok(())
    }

    /// Build the character pool based on the enabled options.
    pub fn build_char_pool(&self) -> (pool: Vec<char>)
        ensures
            pool@ == spec_pool(*self),
    {
        let mut pool: Vec<char> = Vec::new();
        if self.use_lowercase {
            append_filtered(&mut pool, lowercase_str(), self.exclude_ambiguous);
        }
        if self.use_uppercase {
            append_filtered(&mut pool, uppercase_str(), self.exclude_ambiguous);
        }
        if self.use_digits {
            append_filtered(&mut pool, digit_str(), self.exclude_ambiguous);
        }
        if self.use_symbols {
            append_filtered(&mut pool, symbol_str(), false);
        }
        proof {
            assert(pool@ =~= spec_pool(*self));
        }
        pool
    }

    /// The list of required character groups: the filtered alphabet of each
    /// enabled class, kept only if non-empty.
    pub fn required_chars(&self) -> (groups: Vec<Vec<char>>)
        ensures
            groups@.len() == spec_required_groups(*self).len(),
            forall|g: int|
                0 <= g < groups@.len() ==> groups@[g]@ == spec_required_groups(*self)[g],
    {
        let mut groups: Vec<Vec<char>> = Vec::new();
        if self.use_lowercase {
            let mut chars: Vec<char> = Vec::new();
            append_filtered(&mut chars, lowercase_str(), self.exclude_ambiguous);
            if chars.len() > 0 {
                groups.push(chars);
            }
        }
        if self.use_uppercase {
            let mut chars: Vec<char> = Vec::new();
            append_filtered(&mut chars, uppercase_str(), self.exclude_ambiguous);
            if chars.len() > 0 {
                groups.push(chars);
            }
        }
        if self.use_digits {
            let mut chars: Vec<char> = Vec::new();
            append_filtered(&mut chars, digit_str(), self.exclude_ambiguous);
            if chars.len() > 0 {
                groups.push(chars);
            }
        }
        if self.use_symbols {
            let mut chars: Vec<char> = Vec::new();
            append_filtered(&mut chars, symbol_str(), false);
            groups.push(chars);
        }
        groups
    }
}

/// Every character of a filtered alphabet is unambiguous.
proof fn lemma_filtered_unambiguous(alphabet: Seq<char>)
    ensures
        forall|i: int|
            0 <= i < filtered_class(alphabet, true).len()
                ==> !is_ambiguous(#[trigger] filtered_class(alphabet, true)[i]),
{
    broadcast use Seq::<_>::lemma_filter_pred;

}

/// The symbol alphabet has 24 characters and none of them is ambiguous.
proof fn lemma_symbols_unambiguous()
    ensures
        symbol_alphabet().len() == 24,
        forall|i: int|
            0 <= i < symbol_alphabet().len() ==> !is_ambiguous(#[trigger] symbol_alphabet()[i]),
{
    reveal_strlit("!@#$%^&*()-_=+[]{};:,.?/");
}

/// With ambiguous-character filtering on, no character of the pool is
/// ambiguous: the letter and digit parts are filtered, and the symbol
/// alphabet contains no ambiguous character to begin with.
proof fn lemma_pool_unambiguous(c: PasswordConfig)
    requires
        c.exclude_ambiguous,
    ensures
        forall|i: int| 0 <= i < spec_pool(c).len() ==> !is_ambiguous(#[trigger] spec_pool(c)[i]),
{
    let pa = if c.use_lowercase {
        filtered_class(lowercase_alphabet(), true)
    } else {
        Seq::<char>::empty()
    };
    let pb = if c.use_uppercase {
        filtered_class(uppercase_alphabet(), true)
    } else {
        Seq::<char>::empty()
    };
    let pc = if c.use_digits {
        filtered_class(digit_alphabet(), true)
    } else {
        Seq::<char>::empty()
    };
    let pd = if c.use_symbols {
        symbol_alphabet()
    } else {
        Seq::<char>::empty()
    };
    lemma_filtered_unambiguous(lowercase_alphabet());
    lemma_filtered_unambiguous(uppercase_alphabet());
    lemma_filtered_unambiguous(digit_alphabet());
    lemma_symbols_unambiguous();
    assert forall|i: int| 0 <= i < spec_pool(c).len() implies !is_ambiguous(
        #[trigger] spec_pool(c)[i],
    ) by {
        if i < pa.len() {
            assert(spec_pool(c)[i] == pa[i]);
        } else if i < pa.len() + pb.len() {
            assert(spec_pool(c)[i] == pb[i - pa.len()]);
        } else if i < pa.len() + pb.len() + pc.len() {
            assert(spec_pool(c)[i] == pc[i - pa.len() - pb.len()]);
        } else {
            assert(spec_pool(c)[i] == pd[i - pa.len() - pb.len() - pc.len()]);
        }
    }
}

/// Every required group is non-empty: the letter and digit groups are kept
/// only when non-empty, and the symbol alphabet always has 24 characters.
proof fn lemma_groups_nonempty(c: PasswordConfig)
    ensures
        forall|g: int|
            0 <= g < spec_required_groups(c).len()
                ==> #[trigger] spec_required_groups(c)[g].len() > 0,
{
    lemma_symbols_unambiguous();
}

/// Every character of every required group occurs in the pool: each group
/// is exactly the pool segment that its class contributes.
#[verifier::rlimit(60)]
proof fn lemma_groups_in_pool(c: PasswordConfig)
    ensures
        forall|g: int, k: int|
            0 <= g < spec_required_groups(c).len() && 0 <= k < spec_required_groups(c)[g].len()
                ==> spec_pool(c).contains(#[trigger] spec_required_groups(c)[g][k]),
{
    let pa = if c.use_lowercase {
        filtered_class(lowercase_alphabet(), c.exclude_ambiguous)
    } else {
        Seq::<char>::empty()
    };
    let pb = if c.use_uppercase {
        filtered_class(uppercase_alphabet(), c.exclude_ambiguous)
    } else {
        Seq::<char>::empty()
    };
    let pc = if c.use_digits {
        filtered_class(digit_alphabet(), c.exclude_ambiguous)
    } else {
        Seq::<char>::empty()
    };
    let ga_len: int = if c.use_lowercase && pa.len() > 0 {
        1
    } else {
        0
    };
    let gb_len: int = if c.use_uppercase && pb.len() > 0 {
        1
    } else {
        0
    };
    let gc_len: int = if c.use_digits && pc.len() > 0 {
        1
    } else {
        0
    };
    assert forall|g: int, k: int|
        0 <= g < spec_required_groups(c).len() && 0 <= k < spec_required_groups(c)[g].len()
        implies spec_pool(c).contains(#[trigger] spec_required_groups(c)[g][k]) by {
        let x = spec_required_groups(c)[g][k];
        if g < ga_len {
            assert(spec_required_groups(c)[g] == pa);
            assert(spec_pool(c)[k] == x);
        } else if g < ga_len + gb_len {
            assert(spec_required_groups(c)[g] == pb);
            assert(spec_pool(c)[pa.len() + k] == x);
        } else if g < ga_len + gb_len + gc_len {
            assert(spec_required_groups(c)[g] == pc);
            assert(spec_pool(c)[pa.len() + pb.len() + k] == x);
        } else {
            assert(spec_required_groups(c)[g] == symbol_alphabet());
            assert(spec_pool(c)[pa.len() + pb.len() + pc.len() + k] == x);
        }
    }
}

/// The pool never holds more than 86 characters: at most 26 lowercase, 26
/// uppercase, 10 digits and 24 symbols, and filtering only shrinks a class.
pub proof fn lemma_pool_size_bound(c: PasswordConfig)
    ensures
        spec_pool(c).len() <= 86,
{
    broadcast use Seq::<_>::lemma_filter_len;

    reveal_strlit("abcdefghijklmnopqrstuvwxyz");
    reveal_strlit("ABCDEFGHIJKLMNOPQRSTUVWXYZ");
    reveal_strlit("0123456789");
    reveal_strlit("!@#$%^&*()-_=+[]{};:,.?/");
}

/// When at least one class is enabled, the pool is non-empty: each enabled
/// class contributes at least one unambiguous character.
proof fn lemma_pool_nonempty(c: PasswordConfig)
    requires
        some_class_enabled(c),
    ensures
        spec_pool(c).len() > 0,
{
    let pred = (|ch: char| !is_ambiguous(ch));
    if c.use_lowercase {
        reveal_strlit("abcdefghijklmnopqrstuvwxyz");
        assert(lowercase_alphabet()[0] == 'a' && pred(lowercase_alphabet()[0]));
        if c.exclude_ambiguous {
            lowercase_alphabet().lemma_filter_contains(pred, 0);
        }
        assert(filtered_class(lowercase_alphabet(), c.exclude_ambiguous).len() > 0);
    } else if c.use_uppercase {
        reveal_strlit("ABCDEFGHIJKLMNOPQRSTUVWXYZ");
        assert(uppercase_alphabet()[0] == 'A' && pred(uppercase_alphabet()[0]));
        if c.exclude_ambiguous {
            uppercase_alphabet().lemma_filter_contains(pred, 0);
        }
        assert(filtered_class(uppercase_alphabet(), c.exclude_ambiguous).len() > 0);
    } else if c.use_digits {
        reveal_strlit("0123456789");
        assert(digit_alphabet()[2] == '2' && pred(digit_alphabet()[2]));
        if c.exclude_ambiguous {
            digit_alphabet().lemma_filter_contains(pred, 2);
        }
        assert(filtered_class(digit_alphabet(), c.exclude_ambiguous).len() > 0);
    } else {
        lemma_symbols_unambiguous();
    }
}

/// Relies on `String`'s `FromIterator` implementation: collecting characters
/// yields the string of exactly those characters, in order.
#[verifier::external_body]
fn chars_to_string(chars: &Vec<char>) -> (s: String)
    ensures
        s@ == chars@,
{
    chars.iter().collect()
}

/// Generate a cryptographically secure random password.
///
/// On success the password has exactly the requested length, every
/// character comes from the configuration's pool, each required group is
/// represented at least once, and with ambiguous-character filtering on, no
/// ambiguous character occurs. Generation succeeds exactly when the
/// configuration is valid and the length can accommodate one character per
/// required group; each error names the first violated condition.
///
/// All sampling is routed through the OS-backed secure source `rng`, one
/// draw per character plus a final uniform permutation, so the guaranteed
/// class representatives are not predictably placed at the start.
pub fn generate_password(config: &PasswordConfig, rng: &mut rand::rngs::OsRng) -> (r: Result<
    String,
    GenerationError,
>)
    ensures
        match r {
            Ok(p) => {
                &&& config.length >= 1
                &&& some_class_enabled(*config)
                &&& spec_required_groups(*config).len() <= config.length
                &&& p@.len() == config.length
                &&& forall|i: int|
                    0 <= i < p@.len() ==> spec_pool(*config).contains(#[trigger] p@[i])
                &&& forall|g: int|
                    0 <= g < spec_required_groups(*config).len()
                        ==> covers_group(p@, #[trigger] spec_required_groups(*config)[g])
                &&& config.exclude_ambiguous ==> forall|i: int|
                    0 <= i < p@.len() ==> !is_ambiguous(#[trigger] p@[i])
            },
            Err(GenerationError::InvalidLength) => config.length == 0,
            Err(GenerationError::NoCharacterClass) => {
                config.length >= 1 && !some_class_enabled(*config)
            },
            Err(GenerationError::LengthTooShortForClasses) => {
                &&& config.length >= 1
                &&& some_class_enabled(*config)
                &&& config.length < spec_required_groups(*config).len()
            },
            Err(GenerationError::EmptyPool) => false,
        },
{
    match config.validate() {
        Err(e) => {
            return Err(e);
        },
        Ok(()) => {},
    }

    let char_pool = config.build_char_pool();
    if char_pool.len() == 0 {
        proof {
            lemma_pool_nonempty(*config);
        }
        return Err(GenerationError::EmptyPool);
    }

    let required_groups = config.required_chars();
    let required_count = required_groups.len();

    if config.length < required_count {
        return Err(GenerationError::LengthTooShortForClasses);
    }

    let ghost groups_s = spec_required_groups(*config);
    let mut password_chars: Vec<char> = Vec::new();

    // One character from each required group, in group order, so that every
    // enabled class is represented.
    let mut g: usize = 0;
    while g < required_count
        invariant
            required_count == groups_s.len(),
            required_groups@.len() == groups_s.len(),
            forall|j: int| 0 <= j < groups_s.len() ==> #[trigger] required_groups@[j]@ == groups_s[j],
            groups_s == spec_required_groups(*config),
            0 <= g <= required_count,
            password_chars@.len() == g,
            forall|j: int| 0 <= j < g ==> groups_s[j].contains(#[trigger] password_chars@[j]),
            forall|j: int|
                0 <= j < g ==> spec_pool(*config).contains(#[trigger] password_chars@[j]),
        decreases required_count - g,
    {
        proof {
            lemma_groups_nonempty(*config);
            lemma_groups_in_pool(*config);
        }
        let group = &required_groups[g];
        let idx = draw_index(rng, group.len());
        password_chars.push(group[idx]);
        g += 1;
    }

    // Fill the remaining positions from the full pool; repetition is
    // permitted and earlier draws do not bias later ones.
    let pool_len = char_pool.len();
    let mut k = required_count;
    while k < config.length
        invariant
            required_count == groups_s.len(),
            groups_s == spec_required_groups(*config),
            required_count <= k <= config.length,
            password_chars@.len() == k,
            char_pool@ == spec_pool(*config),
            pool_len == char_pool@.len(),
            pool_len >= 1,
            forall|j: int|
                0 <= j < required_count ==> groups_s[j].contains(#[trigger] password_chars@[j]),
            forall|j: int|
                0 <= j < k ==> spec_pool(*config).contains(#[trigger] password_chars@[j]),
        decreases config.length - k,
    {
        let idx = draw_index(rng, pool_len);
        password_chars.push(char_pool[idx]);
        proof {
            assert(spec_pool(*config)[idx as int] == password_chars@[k as int]);
        }
        k += 1;
    }

    // Uniform random permutation, so the guaranteed-class characters are
    // not predictably placed first.
    let ghost before = password_chars@;
    shuffle_chars(rng, &mut password_chars);
    proof {
        before.to_multiset_ensures();
        password_chars@.to_multiset_ensures();
        assert(password_chars@.len() == before.len());
        assert forall|i: int| 0 <= i < password_chars@.len() implies spec_pool(*config).contains(
            #[trigger] password_chars@[i],
        ) by {
            assert(password_chars@.contains(password_chars@[i]));
            assert(before.to_multiset().count(password_chars@[i]) > 0);
            assert(before.contains(password_chars@[i]));
            let j = choose|j: int| 0 <= j < before.len() && before[j] == password_chars@[i];
            assert(spec_pool(*config).contains(before[j]));
        }
        if config.exclude_ambiguous {
            lemma_pool_unambiguous(*config);
            assert forall|i: int| 0 <= i < password_chars@.len() implies !is_ambiguous(
                #[trigger] password_chars@[i],
            ) by {
                let ch = password_chars@[i];
                assert(spec_pool(*config).contains(ch));
                let j = choose|j: int|
                    0 <= j < spec_pool(*config).len() && spec_pool(*config)[j] == ch;
                assert(!is_ambiguous(spec_pool(*config)[j]));
            }
        }
    }

    let result = chars_to_string(&password_chars);
    proof {
        before.to_multiset_ensures();
        password_chars@.to_multiset_ensures();
        assert forall|g: int|
            0 <= g < spec_required_groups(*config).len() implies covers_group(
            result@,
            #[trigger] spec_required_groups(*config)[g],
        ) by {
            assert(groups_s[g].contains(before[g]));
            assert(before.contains(before[g]));
            assert(before.to_multiset().count(before[g]) > 0);
            assert(password_chars@.to_multiset().count(before[g]) > 0);
            assert(password_chars@.contains(before[g]));
            let i1 = choose|i: int|
                0 <= i < password_chars@.len() && password_chars@[i] == before[g];
            assert(result@[i1] == before[g]);
            assert(spec_required_groups(*config)[g].contains(result@[i1]));
        }
    }
    Ok(result)
}

} // verus!
