//! Numbers written in decimal or hexadecimal digits.

use vstd::prelude::*;

verus! {

/// What a digit counts for: `0-9`, and `a-f` or `A-F` for ten to fifteen.
/// Every other character counts for more than any radix in use.
pub open spec fn digit(c: char) -> nat {
    if '0' <= c && c <= '9' {
        (c as u32 - 48) as nat
    } else if 'a' <= c && c <= 'f' {
        (c as u32 - 87) as nat
    } else if 'A' <= c && c <= 'F' {
        (c as u32 - 55) as nat
    } else {
        255
    }
}

/// A number in the given radix: one digit or more, and nothing else.
pub open spec fn is_number(s: Seq<char>, radix: nat) -> bool {
    s.len() > 0 && forall|i: int| 0 <= i < s.len() ==> digit(#[trigger] s[i]) < radix
}

/// The value of the digits of `s`, the most significant one first.
pub open spec fn number_value(s: Seq<char>, radix: nat) -> nat
    decreases s.len(),
{
    if s.len() == 0 {
        0
    } else {
        number_value(s.drop_last(), radix) * radix + digit(s.last())
    }
}

/// The number that `s` denotes, where it is one and fits the machine's word.
pub open spec fn parsed_number(s: Seq<char>, radix: nat) -> Option<usize> {
    if is_number(s, radix) && number_value(s, radix) <= usize::MAX {
        Some(number_value(s, radix) as usize)
    } else {
        None
    }
}

/// More digits never make a smaller number.
pub proof fn lemma_number_value_grows(s: Seq<char>, radix: nat, i: int)
    requires
        radix >= 1,
        0 <= i <= s.len(),
    ensures
        number_value(s.take(i), radix) <= number_value(s, radix),
    decreases s.len() - i,
{
    if i == s.len() {
        assert(s.take(i) =~= s);
    } else {
        lemma_number_value_grows(s, radix, i + 1);
        let t = s.take(i + 1);
        assert(t.drop_last() =~= s.take(i));
        let v = number_value(s.take(i), radix);
        assert(v * radix >= v) by (nonlinear_arith)
            requires
                radix >= 1,
                v >= 0,
        ;
    }
}

fn digit_of(c: char) -> (d: usize)
    ensures
        d == digit(c),
{
    let code: u32 = c as u32;
    if c >= '0' && c <= '9' {
        (code - 48) as usize
    } else if c >= 'a' && c <= 'f' {
        (code - 87) as usize
    } else if c >= 'A' && c <= 'F' {
        (code - 55) as usize
    } else {
        255
    }
}

/// Reads `s` as a number in the given radix.
pub fn parse_number(s: &Vec<char>, radix: usize) -> (r: Option<usize>)
    requires
        1 <= radix <= 16,
    ensures
        r == parsed_number(s@, radix as nat),
{
    if s.len() == 0 {
        return None;
    }
    let mut value: usize = 0;
    let mut i: usize = 0;
    while i < s.len()
        invariant
            1 <= radix <= 16,
            i <= s.len(),
            forall|j: int| 0 <= j < i ==> digit(#[trigger] s@[j]) < radix,
            value == number_value(s@.take(i as int), radix as nat),
        decreases s.len() - i,
    {
        let d = digit_of(s[i]);
        if d >= radix {
            return None;
        }
        proof {
            assert(s@.take(i + 1).drop_last() =~= s@.take(i as int));
            lemma_number_value_grows(s@, radix as nat, i + 1);
        }
        let scaled = match value.checked_mul(radix) {
            Some(v) => v,
            None => {
                return None;
            },
        };
        value = match scaled.checked_add(d) {
            Some(v) => v,
            None => {
                return None;
            },
        };
        i += 1;
    }
    assert(s@.take(i as int) =~= s@);
    Some(value)
}

} // verus!
