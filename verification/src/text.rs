//! Small verified text helpers: decimal rendering of numbers and joining
//! label lists, used to assemble the secret-free metadata line.

use vstd::prelude::*;

verus! {

/// The decimal digit character for a value below ten.
pub open spec fn digit_char(d: int) -> char {
    if d == 0 {
        '0'
    } else if d == 1 {
        '1'
    } else if d == 2 {
        '2'
    } else if d == 3 {
        '3'
    } else if d == 4 {
        '4'
    } else if d == 5 {
        '5'
    } else if d == 6 {
        '6'
    } else if d == 7 {
        '7'
    } else if d == 8 {
        '8'
    } else {
        '9'
    }
}

/// The decimal representation of a non-negative number, most significant
/// digit first, without leading zeros (except for zero itself).
pub open spec fn dec_digits(n: int) -> Seq<char>
    recommends
        n >= 0,
    decreases n,
{
    if n < 10 {
        seq![digit_char(n)]
    } else {
        dec_digits(n / 10).push(digit_char(n % 10))
    }
}

/// The string of one decimal digit.
fn digit_str(d: u128) -> (s: &'static str)
    requires
        d < 10,
    ensures
        s@ == seq![digit_char(d as int)],
{
    let s: &'static str = if d == 0 {
        "0"
    } else if d == 1 {
        "1"
    } else if d == 2 {
        "2"
    } else if d == 3 {
        "3"
    } else if d == 4 {
        "4"
    } else if d == 5 {
        "5"
    } else if d == 6 {
        "6"
    } else if d == 7 {
        "7"
    } else if d == 8 {
        "8"
    } else {
        "9"
    };
    proof {
        reveal_strlit("0");
        reveal_strlit("1");
        reveal_strlit("2");
        reveal_strlit("3");
        reveal_strlit("4");
        reveal_strlit("5");
        reveal_strlit("6");
        reveal_strlit("7");
        reveal_strlit("8");
        reveal_strlit("9");
        assert(s@ =~= seq![digit_char(d as int)]);
    }
    s
}

/// Render `n` in decimal.
pub fn u128_to_string(n: u128) -> (s: String)
    ensures
        s@ == dec_digits(n as int),
    decreases n,
{
    if n < 10 {
        String::from_str(digit_str(n))
    } else {
        let mut s = u128_to_string(n / 10);
        s.append(digit_str(n % 10));
        proof {
            assert(s@ =~= dec_digits(n as int));
        }
        s
    }
}

/// `parts` joined with `sep` between consecutive parts.
pub open spec fn spec_join(parts: Seq<Seq<char>>, sep: Seq<char>) -> Seq<char>
    decreases parts.len(),
{
    if parts.len() == 0 {
        Seq::<char>::empty()
    } else if parts.len() == 1 {
        parts[0]
    } else {
        parts[0] + sep + spec_join(parts.drop_first(), sep)
    }
}

/// Appending one more part to a join appends a separator and the part,
/// unless the join was empty so far.
proof fn lemma_join_push(parts: Seq<Seq<char>>, x: Seq<char>, sep: Seq<char>)
    ensures
        spec_join(parts.push(x), sep) == if parts.len() == 0 {
            x
        } else {
            spec_join(parts, sep) + sep + x
        },
    decreases parts.len(),
{
    if parts.len() == 0 {
        assert(parts.push(x).len() == 1);
        assert(parts.push(x)[0] == x);
    } else {
        assert(parts.push(x).drop_first() =~= parts.drop_first().push(x));
        lemma_join_push(parts.drop_first(), x, sep);
        if parts.len() == 1 {
            assert(spec_join(parts, sep) == parts[0]);
            assert(spec_join(parts.push(x), sep) == parts[0] + sep + x);
        } else {
            assert(spec_join(parts.push(x), sep) == parts[0] + sep + spec_join(
                parts.drop_first().push(x),
                sep,
            ));
            assert(spec_join(parts, sep) + sep + x =~= parts[0] + sep + (spec_join(
                parts.drop_first(),
                sep,
            ) + sep + x));
        }
    }
}

/// Join the given parts with `", "` between consecutive parts.
pub fn join_with_commas(items: &Vec<&str>) -> (s: String)
    ensures
        s@ == spec_join(Seq::new(items@.len() as nat, |j: int| items@[j]@), ", "@),
{
    let ghost parts = Seq::new(items@.len() as nat, |j: int| items@[j]@);
    let mut out = String::new();
    let mut i: usize = 0;
    while i < items.len()
        invariant
            parts == Seq::new(items@.len() as nat, |j: int| items@[j]@),
            0 <= i <= items@.len(),
            out@ == spec_join(parts.take(i as int), ", "@),
        decreases items@.len() - i,
    {
        if i > 0 {
            out.append(", ");
        }
        out.append(items[i]);
        proof {
            assert(parts.take(i as int + 1) =~= parts.take(i as int).push(parts[i as int]));
            lemma_join_push(parts.take(i as int), parts[i as int], ", "@);
            assert(parts[i as int] == items@[i as int]@);
        }
        i += 1;
    }
    proof {
        assert(parts.take(items@.len() as int) =~= parts);
    }
    out
}

} // verus!
