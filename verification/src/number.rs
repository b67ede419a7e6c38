//! Counters as decimal text.

use vstd::prelude::*;
use crate::card::COUNTER_MAX;

verus! {

/// The value of a decimal digit.
pub open spec fn digit_of(c: char) -> Option<nat> {
    if '0' <= c <= '9' {
        Some((c as nat - '0' as nat) as nat)
    } else {
        None
    }
}

/// The number that a text of decimal digits writes; a text that is empty or
/// holds anything but digits writes none.
pub open spec fn number_of(s: Seq<char>) -> Option<nat>
    decreases s.len(),
{
    if s.len() == 0 {
        None
    } else if s.len() == 1 {
        digit_of(s[0])
    } else {
        match (number_of(s.drop_last()), digit_of(s.last())) {
            (Some(n), Some(d)) => Some(10 * n + d),
            _ => None,
        }
    }
}

/// The counter that a text writes: zero for an empty text, else its number,
/// unless that is more than a counter can hold.
pub open spec fn counter_of(s: Seq<char>) -> Option<nat> {
    if s.len() == 0 {
        Some(0)
    } else {
        match number_of(s) {
            Some(n) => if n <= COUNTER_MAX {
                Some(n)
            } else {
                None
            },
            None => None,
        }
    }
}

/// The digit that writes a value below ten.
pub open spec fn digit_char(d: nat) -> char {
    if d == 0 {
        '0'
    } else if d == 1 {
        '1'
    } else if d == 2 {
        '2'
    } else if d == 3 {
        '3'
    } else if d == 4 {
        '4'
    } else if d == 5 {
        '5'
    } else if d == 6 {
        '6'
    } else if d == 7 {
        '7'
    } else if d == 8 {
        '8'
    } else {
        '9'
    }
}

/// The decimal digits of a number, without leading zeros.
pub open spec fn digits_of(n: nat) -> Seq<char>
    decreases n,
{
    if n < 10 {
        seq![digit_char(n)]
    } else {
        digits_of(n / 10).push(digit_char(n % 10))
    }
}

/// A text that writes a number writes a number with each of its beginnings
/// too, and none of them is larger.
pub proof fn lemma_number_prefix(s: Seq<char>, k: int)
    requires
        1 <= k <= s.len(),
        number_of(s) is Some,
    ensures
        number_of(s.take(k)) is Some,
        number_of(s.take(k))->0 <= number_of(s)->0,
        digit_of(s[k - 1]) is Some,
    decreases s.len(),
{
    if k == s.len() {
        assert(s.take(k) =~= s);
    } else {
        assert(s.drop_last().take(k) =~= s.take(k));
        lemma_number_prefix(s.drop_last(), k);
    }
}

/// Reading the digits of a number gives the number back.
pub proof fn lemma_digits_round_trip(n: nat)
    ensures
        number_of(digits_of(n)) == Some(n),
        digits_of(n).len() > 0,
        forall|i: int| 0 <= i < digits_of(n).len() ==> digit_of(#[trigger] digits_of(n)[i]) is Some,
    decreases n,
{
    if n >= 10 {
        lemma_digits_round_trip(n / 10);
        let front = digits_of(n / 10);
        assert(digits_of(n).drop_last() =~= front);
        assert(digit_of(digit_char(n % 10)) == Some(n % 10));
    } else {
        assert(digit_of(digit_char(n)) == Some(n));
    }
}

/// Reads the value of a decimal digit.
pub fn digit(c: char) -> (d: Option<u32>)
    ensures
        match d {
            Some(d) => digit_of(c) == Some(d as nat),
            None => digit_of(c) is None,
        },
{
    if '0' <= c && c <= '9' {
        Some(c as u32 - '0' as u32)
    } else {
        None
    }
}

/// Reads the counter that `v[from..to]` writes.
pub fn counter_at(v: &Vec<char>, from: usize, to: usize) -> (n: Option<u32>)
    requires
        from <= to <= v@.len(),
    ensures
        match n {
            Some(n) => counter_of(v@.subrange(from as int, to as int)) == Some(n as nat),
            None => counter_of(v@.subrange(from as int, to as int)) is None,
        },
{
    let ghost text = v@.subrange(from as int, to as int);
    if from == to {
        return Some(0);
    }
    let mut n: u32 = 0;
    let mut i: usize = from;
    while i < to
        invariant
            from <= i <= to <= v@.len(),
            from < to,
            text == v@.subrange(from as int, to as int),
            i > from ==> number_of(text.take(i - from)) == Some(n as nat),
            i == from ==> n == 0,
        decreases to - i,
    {
        proof {
            if number_of(text) is Some {
                lemma_number_prefix(text, i - from + 1);
            }
            assert(text.take(i - from + 1).drop_last() =~= text.take(i - from));
            assert(text.take(i - from + 1).last() == v@[i as int]);
        }
        match digit(v[i]) {
            Some(d) => {
                if n > (COUNTER_MAX - d) / 10 {
                    return None;
                }
                n = 10 * n + d;
            },
            None => {
                return None;
            },
        }
        i += 1;
    }
    assert(text.take(to - from) =~= text);
    Some(n)
}

/// The digit that writes a value below ten.
pub fn digit_to_char(d: u32) -> (c: char)
    requires
        d < 10,
    ensures
        c == digit_char(d as nat),
{
    if d == 0 {
        '0'
    } else if d == 1 {
        '1'
    } else if d == 2 {
        '2'
    } else if d == 3 {
        '3'
    } else if d == 4 {
        '4'
    } else if d == 5 {
        '5'
    } else if d == 6 {
        '6'
    } else if d == 7 {
        '7'
    } else if d == 8 {
        '8'
    } else {
        '9'
    }
}

/// Appends the decimal digits of `n` to `text`.
pub fn push_digits(text: &mut String, n: u32)
    ensures
        final(text)@ == old(text)@ + digits_of(n as nat),
    decreases n,
{
    if n >= 10 {
        push_digits(text, n / 10);
    }
    text.push(digit_to_char(n % 10));
    assert(text@ =~= old(text)@ + digits_of(n as nat));
}

} // verus!
