//! Password strength estimation.
//!
//! The entropy of a configuration is `length * log2(pool_size)` bits. The
//! classification compares it against fixed thresholds — below 50 bits is
//! weak, from 50 to below 80 bits is medium, at and above 80 bits is
//! strong — which is decided exactly, without rounding, by comparing
//! `pool_size ^ length` against `2^50` and `2^80`.

use vstd::prelude::*;
use vstd::arithmetic::logarithm::{log, lemma_log0};
use vstd::arithmetic::power::{
    pow, lemma_pow0, lemma_pow1, lemma1_pow, lemma_pow_adds, lemma_pow_increases,
};
use vstd::arithmetic::power2::{pow2, lemma2_to64, lemma2_to64_rest, lemma_pow2_adds};

use crate::password::{PasswordConfig, spec_pool};
use crate::text::{dec_digits, spec_join, join_with_commas, u128_to_string};
use crate::wide::log2_pow;

verus! {

/// Password strength category based on entropy.
#[derive(Debug, Clone, Copy, PartialEq, Eq, Structural)]
pub enum PasswordStrength {
    Weak,
    Medium,
    Strong,
}

/// The display label of a strength category.
pub open spec fn strength_label(s: PasswordStrength) -> Seq<char> {
    match s {
        PasswordStrength::Weak => "Weak"@,
        PasswordStrength::Medium => "Medium"@,
        PasswordStrength::Strong => "Strong"@,
    }
}

impl PasswordStrength {
    /// The display label of this strength category.
    pub fn as_str(&self) -> (s: &'static str)
        ensures
            s@ == strength_label(*self),
    {
        match self {
            PasswordStrength::Weak => "Weak",
            PasswordStrength::Medium => "Medium",
            PasswordStrength::Strong => "Strong",
        }
    }
}

/// The strength class of a configuration whose pool has `pool` characters
/// and whose length is `len`. The entropy `len * log2(pool)` is below 50
/// bits exactly when `pool^len < 2^50`, and below 80 bits exactly when
/// `pool^len < 2^80`; an empty pool is weak by definition.
pub open spec fn spec_strength(pool: nat, len: nat) -> PasswordStrength {
    if pool == 0 {
        PasswordStrength::Weak
    } else if pow(pool as int, len) < pow2(50) {
        PasswordStrength::Weak
    } else if pow(pool as int, len) < pow2(80) {
        PasswordStrength::Medium
    } else {
        PasswordStrength::Strong
    }
}

/// The numeric values of the two entropy thresholds.
proof fn lemma_pow2_thresholds()
    ensures
        pow2(50) == 0x4000000000000,
        pow2(80) == 0x100000000000000000000,
{
    lemma2_to64();
    lemma2_to64_rest();
    lemma_pow2_adds(64, 16);
}

/// Whether a pool of `pool` characters at length `len` reaches at least
/// `bits` bits of entropy, that is, whether `pool^len >= 2^bits`.
///
/// The product is accumulated until it reaches the threshold; once it does,
/// it can only grow further, so the loop can stop early and never runs for
/// more than `bits` rounds.
fn entropy_reaches(pool: usize, len: usize, bits: usize) -> (b: bool)
    requires
        1 <= pool <= 0xff,
        bits == 50 || bits == 80,
    ensures
        b == (pow(pool as int, len as nat) >= pow2(bits as nat)),
{
    proof {
        lemma_pow2_thresholds();
    }
    let threshold: u128 = if bits == 50 {
        0x4000000000000
    } else {
        0x100000000000000000000
    };
    if pool == 1 {
        proof {
            lemma1_pow(len as nat);
        }
        return false;
    }
    let mut acc: u128 = 1;
    let mut i: usize = 0;
    proof {
        vstd::arithmetic::power::lemma_pow0(pool as int);
    }
    while i < len
        invariant
            2 <= pool <= 0xff,
            0 <= i <= len,
            acc == pow(pool as int, i as nat),
            acc < threshold,
            threshold == pow2(bits as nat),
            threshold <= 0x100000000000000000000,
        decreases len - i,
    {
        proof {
            assert(acc * (pool as u128) < 0x100000000000000000000 * 0x100) by (nonlinear_arith)
                requires
                    acc < 0x100000000000000000000,
                    pool <= 0xff,
            ;
        }
        let next: u128 = acc * (pool as u128);
        proof {
            lemma_pow_adds(pool as int, i as nat, 1);
            lemma_pow1(pool as int);
            assert(next == pow(pool as int, (i + 1) as nat));
        }
        if next >= threshold {
            proof {
                lemma_pow_increases(pool as nat, (i + 1) as nat, len as nat);
            }
            return true;
        }
        acc = next;
        i += 1;
    }
    false
}

/// Estimate the strength of a configuration.
///
/// The estimate is a pure function of the configuration alone — the pool is
/// recomputed from it, and no generated password enters the computation —
/// so identical configurations always receive the identical class.
pub fn estimate_strength(config: &PasswordConfig) -> (s: PasswordStrength)
    ensures
        s == spec_strength(spec_pool(*config).len(), config.length as nat),
{
    let pool = config.build_char_pool();
    let pool_size = pool.len();
    if pool_size == 0 {
        return PasswordStrength::Weak;
    }
    proof {
        crate::password::lemma_pool_size_bound(*config);
    }
    if !entropy_reaches(pool_size, config.length, 50) {
        PasswordStrength::Weak
    } else if !entropy_reaches(pool_size, config.length, 80) {
        PasswordStrength::Medium
    } else {
        PasswordStrength::Strong
    }
}

/// The entropy of a configuration in tenths of a bit, rounded to the
/// nearest tenth (halves up): with `e = len * log2(pool)` this is
/// `floor(10*e + 1/2)`, which equals `(floor(20*e) + 1) / 2`, and
/// `floor(20*e)` is the integer base-2 logarithm of `pool^(20*len)`. An
/// empty pool contributes nothing.
pub open spec fn spec_entropy_decibits(pool: nat, len: nat) -> int {
    if pool == 0 {
        0
    } else {
        (log(2, pow(pool as int, 20 * len)) + 1) / 2
    }
}

/// The entropy of a configuration in tenths of a bit, rounded to the
/// nearest tenth, computed exactly over the whole product
/// `pool^(20*length)`.
pub fn entropy_decibits(config: &PasswordConfig) -> (r: u128)
    ensures
        r == spec_entropy_decibits(spec_pool(*config).len(), config.length as nat),
{
    let pool = config.build_char_pool();
    let n = pool.len();
    if n == 0 {
        return 0;
    }
    if n == 1 {
        proof {
            lemma1_pow(20 * config.length as nat);
            lemma_log0(2, 1);
        }
        return 0;
    }
    proof {
        crate::password::lemma_pool_size_bound(*config);
    }
    (log2_pow(n as u32, 20 * (config.length as u128)) + 1) / 2
}

/// The class labels enabled in `c`, in the fixed class order.
pub open spec fn spec_enabled_labels(c: PasswordConfig) -> Seq<Seq<char>> {
    (if c.use_lowercase {
        seq!["lowercase"@]
    } else {
        Seq::<Seq<char>>::empty()
    }) + (if c.use_uppercase {
        seq!["uppercase"@]
    } else {
        Seq::<Seq<char>>::empty()
    }) + (if c.use_digits {
        seq!["digits"@]
    } else {
        Seq::<Seq<char>>::empty()
    }) + (if c.use_symbols {
        seq!["symbols"@]
    } else {
        Seq::<Seq<char>>::empty()
    })
}

/// The metadata line for a configuration and a strength class: length,
/// enabled class labels in fixed order, pool size, entropy in tenths of a
/// bit, and the strength label. The generated secret itself never appears
/// in it.
pub open spec fn spec_metadata(c: PasswordConfig, st: PasswordStrength) -> Seq<char> {
    let pool = spec_pool(c).len();
    let deci = spec_entropy_decibits(pool, c.length as nat);
    "Length: "@ + dec_digits(c.length as int) + " | Types: "@ + spec_join(
        spec_enabled_labels(c),
        ", "@,
    ) + " | Pool size: "@ + dec_digits(pool as int) + " | Entropy: "@ + dec_digits(deci / 10)
        + "."@ + dec_digits(deci % 10) + " bits | Strength: "@ + strength_label(st)
}

/// The enabled class labels, in the fixed class order.
fn class_labels(config: &PasswordConfig) -> (labels: Vec<&'static str>)
    ensures
        labels@.len() == spec_enabled_labels(*config).len(),
        forall|j: int|
            0 <= j < labels@.len() ==> #[trigger] labels@[j]@ == spec_enabled_labels(*config)[j],
{
    let mut labels: Vec<&'static str> = Vec::new();
    if config.use_lowercase {
        labels.push("lowercase");
    }
    if config.use_uppercase {
        labels.push("uppercase");
    }
    if config.use_digits {
        labels.push("digits");
    }
    if config.use_symbols {
        labels.push("symbols");
    }
    labels
}

/// Format password metadata for display, without the password itself.
///
/// The line states the requested length, the enabled class labels, the
/// pool size, the entropy in tenths of a bit, and the given strength
/// label; it never includes any generated secret.
pub fn format_metadata(config: &PasswordConfig, strength: PasswordStrength) -> (s: String)
    ensures
        s@ == spec_metadata(*config, strength),
{
    let pool = config.build_char_pool();
    let pool_size = pool.len();
    let deci = entropy_decibits(config);
    let labels = class_labels(config);
    let joined = join_with_commas(&labels);
    proof {
        assert(Seq::new(labels@.len() as nat, |j: int| labels@[j]@) =~= spec_enabled_labels(
            *config,
        ));
    }
    let mut s = String::from_str("Length: ");
    s.append(u128_to_string(config.length as u128).as_str());
    s.append(" | Types: ");
    s.append(joined.as_str());
    s.append(" | Pool size: ");
    s.append(u128_to_string(pool_size as u128).as_str());
    s.append(" | Entropy: ");
    s.append(u128_to_string(deci / 10).as_str());
    s.append(".");
    s.append(u128_to_string(deci % 10).as_str());
    s.append(" bits | Strength: ");
    s.append(strength.as_str());
    proof {
        assert(s@ =~= spec_metadata(*config, strength));
    }
    s
}

/// The strength estimate is a pure function of the configuration: two
/// identical configurations are always assigned the identical class,
/// whatever passwords were generated in between.
pub proof fn lemma_estimate_strength_pure(c1: PasswordConfig, c2: PasswordConfig)
    requires
        c1 == c2,
    ensures
        spec_strength(spec_pool(c1).len(), c1.length as nat) == spec_strength(
            spec_pool(c2).len(),
            c2.length as nat,
        ),
{
}

} // verus!
