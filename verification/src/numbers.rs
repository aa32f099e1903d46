//! Unsigned numbers written in decimal or octal, read the way `u32`'s
//! `from_str_radix` reads them: an optional `+`, then at least one digit of
//! the radix, and a value that fits in 32 bits.

use vstd::prelude::*;

verus! {

/// The value of digit `c` in `radix` (at most 10), if it is one.
pub open spec fn digit_value(c: char, radix: u32) -> Option<nat> {
    if '0' <= c && c <= '9' && ((c as u32) - 48) < radix {
        Some(((c as u32) - 48) as nat)
    } else {
        None
    }
}

/// Whether every character of `s` is a digit in `radix`.
pub open spec fn all_digits(s: Seq<char>, radix: u32) -> bool {
    forall|i: int| 0 <= i < s.len() ==> #[trigger] digit_value(s[i], radix) is Some
}

/// The number the digits of `s` spell in `radix`.
pub open spec fn digits_value(s: Seq<char>, radix: u32) -> nat
    decreases s.len(),
{
    if s.len() == 0 {
        0
    } else {
        digits_value(s.drop_last(), radix) * (radix as nat) + match digit_value(s.last(), radix) {
            Some(d) => d,
            None => 0nat,
        }
    }
}

/// `s` without one leading `+`.
pub open spec fn without_plus(s: Seq<char>) -> Seq<char> {
    if s.len() > 0 && s[0] == '+' {
        s.skip(1)
    } else {
        s
    }
}

/// What reading `s` as an unsigned number at most `max` in `radix` gives.
pub open spec fn parsed_uint(s: Seq<char>, radix: u32, max: nat) -> Option<nat> {
    let body = without_plus(s);
    if body.len() > 0 && all_digits(body, radix) && digits_value(body, radix) <= max {
        Some(digits_value(body, radix))
    } else {
        None
    }
}

/// What reading `s` as an unsigned 32-bit number in `radix` gives.
pub open spec fn parsed_u32(s: Seq<char>, radix: u32) -> Option<u32> {
    match parsed_uint(s, radix, u32::MAX as nat) {
        Some(v) => Some(v as u32),
        None => None,
    }
}

/// What reading `s` as an unsigned 64-bit number in decimal gives.
pub open spec fn parsed_u64(s: Seq<char>) -> Option<u64> {
    match parsed_uint(s, 10, u64::MAX as nat) {
        Some(v) => Some(v as u64),
        None => None,
    }
}

proof fn lemma_digits_value_grows(s: Seq<char>, radix: u32, i: int)
    requires
        1 <= radix,
        0 <= i <= s.len(),
    ensures
        digits_value(s.take(i), radix) <= digits_value(s, radix),
    decreases s.len() - i,
{
    if i < s.len() {
        lemma_digits_value_grows(s, radix, i + 1);
        assert(s.take(i + 1).drop_last() =~= s.take(i));
        let v = digits_value(s.take(i), radix);
        assert(v * radix >= v) by (nonlinear_arith)
            requires
                radix >= 1,
        ;
    } else {
        assert(s.take(i) =~= s);
    }
}

/// Reads `s` as an unsigned number of at most `max` in `radix` (2 to 10).
pub fn parse_uint(s: &[char], radix: u32, max: u64) -> (r: Option<u64>)
    requires
        2 <= radix <= 10,
    ensures
        match r {
            Some(v) => parsed_uint(s@, radix, max as nat) == Some(v as nat),
            None => parsed_uint(s@, radix, max as nat) is None,
        },
{
    let ghost body = without_plus(s@);
    let mut start: usize = 0;
    if s.len() > 0 && s[0] == '+' {
        start = 1;
    }
    assert(body =~= s@.skip(start as int));
    if start == s.len() {
        return None;
    }
    let mut value: u64 = 0;
    let mut i: usize = start;
    while i < s.len()
        invariant
            start <= i <= s@.len(),
            body == s@.skip(start as int),
            body == without_plus(s@),
            2 <= radix <= 10,
            all_digits(body.take(i - start), radix),
            value == digits_value(body.take(i - start), radix),
            value <= max,
        decreases s.len() - i,
    {
        let c = s[i];
        assert(body[i - start] == c);
        if !('0' <= c && c <= '9') || (c as u32) - 48 >= radix {
            assert(digit_value(body[i - start], radix) is None);
            assert(!all_digits(body, radix));
            return None;
        }
        let d: u64 = ((c as u32) - 48) as u64;
        let ghost k = i - start;
        assert(body.take(k + 1).drop_last() =~= body.take(k));
        assert(body.take(k + 1).last() == c);
        assert(all_digits(body.take(k + 1), radix)) by {
            assert forall|j: int| 0 <= j < k + 1 implies #[trigger] digit_value(body.take(k + 1)[j], radix) is Some by {
                if j < k {
                    assert(body.take(k + 1)[j] == body.take(k)[j]);
                }
            }
        }
        assert(digit_value(c, radix) == Some(d as nat));
        let next = match value.checked_mul(radix as u64) {
            Some(m) => m.checked_add(d),
            None => None,
        };
        match next {
            Some(n) if n <= max => {
                assert(digits_value(body.take(k + 1), radix) == n);
                value = n;
            },
            _ => {
                proof {
                    assert(digits_value(body.take(k + 1), radix) == value * radix + d);
                    lemma_digits_value_grows(body, radix, k + 1);
                }
                assert(digits_value(body, radix) > max);
                return None;
            },
        }
        i = i + 1;
    }
    assert(body.take(i - start) =~= body);
    Some(value)
}

/// Reads `s` as an unsigned 32-bit number in `radix` (2 to 10).
pub fn parse_u32_radix(s: &[char], radix: u32) -> (r: Option<u32>)
    requires
        2 <= radix <= 10,
    ensures
        r == parsed_u32(s@, radix),
{
    match parse_uint(s, radix, 4294967295) {
        Some(v) => Some(v as u32),
        None => None,
    }
}

/// Reads `s` as an unsigned 64-bit decimal number.
pub fn parse_u64(s: &[char]) -> (r: Option<u64>)
    ensures
        r == parsed_u64(s@),
{
    parse_uint(s, 10, 18446744073709551615)
}

} // verus!
