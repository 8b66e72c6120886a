//! Decimal integer literals: what `str::parse::<u64>` and
//! `str::parse::<i64>` accept, and the values they give.
use vstd::prelude::*;

use crate::token::is_digit_char;

verus! {

/// The value of a decimal digit.
pub open spec fn digit_value(c: char) -> nat {
    (c as int - '0' as int) as nat
}

/// Every character is a decimal digit.
pub open spec fn all_digits(s: Seq<char>) -> bool {
    forall|i: int| 0 <= i < s.len() ==> is_digit_char(#[trigger] s[i])
}

/// The value of a string of decimal digits.
pub open spec fn decimal_value(s: Seq<char>) -> nat
    decreases s.len(),
{
    if s.len() == 0 {
        0
    } else {
        decimal_value(s.drop_last()) * 10 + digit_value(s.last())
    }
}

/// The digits of a literal with its optional leading `+` removed.
pub open spec fn unsigned_digits(s: Seq<char>) -> Seq<char> {
    if s.len() > 0 && s[0] == '+' {
        s.drop_first()
    } else {
        s
    }
}

/// The value of `d` when it is a non-empty run of digits of value at most
/// `bound`.
pub open spec fn digits_within(d: Seq<char>, bound: nat) -> Option<nat> {
    if d.len() > 0 && all_digits(d) && decimal_value(d) <= bound {
        Some(decimal_value(d))
    } else {
        None
    }
}

/// What `str::parse::<u64>` gives: an optional `+`, then at least one digit,
/// the value fitting in `u64`.
pub open spec fn parse_unsigned(s: Seq<char>) -> Option<u64> {
    match digits_within(unsigned_digits(s), u64::MAX as nat) {
        Some(v) => Some(v as u64),
        None => None,
    }
}

/// What `str::parse::<i64>` gives: an optional sign, then at least one
/// digit, the value fitting in `i64`.
pub open spec fn parse_signed(s: Seq<char>) -> Option<i64> {
    if s.len() > 0 && s[0] == '-' {
        match digits_within(s.drop_first(), 0x8000_0000_0000_0000nat) {
            Some(v) => Some((0 - v) as i64),
            None => None,
        }
    } else {
        match digits_within(unsigned_digits(s), i64::MAX as nat) {
            Some(v) => Some(v as i64),
            None => None,
        }
    }
}

/// A longer run of digits is worth at least as much as its prefix.
proof fn lemma_prefix_value(s: Seq<char>, i: int)
    requires
        0 <= i <= s.len(),
    ensures
        decimal_value(s.take(i)) <= decimal_value(s),
    decreases s.len(),
{
    if i < s.len() {
        assert(s.drop_last().take(i) =~= s.take(i));
        lemma_prefix_value(s.drop_last(), i);
    } else {
        assert(s.take(i) =~= s);
    }
}

/// The value of the digits of `cs` from `start` on, when they are a
/// non-empty run of digits worth at most `bound`.
fn digits_from(cs: &[char], start: usize, bound: u64) -> (r: Option<u64>)
    requires
        start <= cs@.len(),
    ensures
        match digits_within(cs@.skip(start as int), bound as nat) {
            Some(v) => r == Some(v as u64),
            None => r is None,
        },
{
    let ghost d = cs@.skip(start as int);
    if start >= cs.len() {
        return None;
    }
    let mut v: u128 = 0;
    let mut i: usize = start;
    assert(d.take(0) =~= Seq::<char>::empty());
    while i < cs.len()
        invariant
            start <= i <= cs@.len(),
            d == cs@.skip(start as int),
            all_digits(d.take(i - start)),
            v as nat == decimal_value(d.take(i - start)),
            v <= bound,
        decreases cs.len() - i,
    {
        let c = cs[i];
        assert(d[i - start] == c);
        if !('0' <= c && c <= '9') {
            assert(!is_digit_char(d[i - start]));
            return None;
        }
        let dv = (c as u32 - '0' as u32) as u128;
        let ghost k: int = i - start;
        assert(d.take(k + 1).drop_last() =~= d.take(k));
        assert(d.take(k + 1).last() == c);
        assert(dv as nat == digit_value(c));
        v = v * 10 + dv;
        assert(all_digits(d.take(k + 1))) by {
            assert forall|j: int| 0 <= j < d.take(k + 1).len() implies is_digit_char(
                #[trigger] d.take(k + 1)[j],
            ) by {
                if j < k {
                    assert(d.take(k + 1)[j] == d.take(k)[j]);
                }
            }
        }
        if v > bound as u128 {
            proof {
                lemma_prefix_value(d, k + 1);
            }
            return None;
        }
        i = i + 1;
    }
    assert(d.take(i - start) =~= d);
    Some(v as u64)
}

/// Parses an unsigned decimal literal as `str::parse::<u64>` does.
pub fn parse_u64_chars(s: &[char]) -> (r: Option<u64>)
    ensures
        r == parse_unsigned(s@),
{
    if s.len() > 0 && s[0] == '+' {
        assert(s@.skip(1) =~= s@.drop_first());
        digits_from(s, 1, u64::MAX)
    } else {
        assert(s@.skip(0) =~= s@);
        digits_from(s, 0, u64::MAX)
    }
}

/// Parses a signed decimal literal as `str::parse::<i64>` does.
pub fn parse_i64_chars(s: &[char]) -> (r: Option<i64>)
    ensures
        r == parse_signed(s@),
{
    if s.len() > 0 && s[0] == '-' {
        assert(s@.skip(1) =~= s@.drop_first());
        match digits_from(s, 1, 0x8000_0000_0000_0000u64) {
            Some(v) => {
                if v == 0x8000_0000_0000_0000u64 {
                    Some(i64::MIN)
                } else {
                    Some(-(v as i64))
                }
            },
            None => None,
        }
    } else if s.len() > 0 && s[0] == '+' {
        assert(s@.skip(1) =~= s@.drop_first());
        match digits_from(s, 1, i64::MAX as u64) {
            Some(v) => Some(v as i64),
            None => None,
        }
    } else {
        assert(s@.skip(0) =~= s@);
        match digits_from(s, 0, i64::MAX as u64) {
            Some(v) => Some(v as i64),
            None => None,
        }
    }
}

} // verus!
