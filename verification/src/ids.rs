//! ULID identifiers as the `ulid` crate makes, writes and reads them: a
//! 128-bit value written as 26 characters of Crockford's base32.

use vstd::prelude::*;

verus! {

/// Calls `ulid::Ulid::new`: a fresh identifier from the clock and a random
/// source, so nothing is stated of its value.
#[verifier::external_body]
pub(crate) fn fresh_ulid() -> u128 {
    ulid::Ulid::new().0
}

/// Crockford's base32 digits in value order (no I, L, O or U).
pub open spec fn crockford_digits() -> Seq<char> {
    seq![
        '0', '1', '2', '3', '4', '5', '6', '7', '8', '9', 'A', 'B', 'C', 'D', 'E', 'F',
        'G', 'H', 'J', 'K', 'M', 'N', 'P', 'Q', 'R', 'S', 'T', 'V', 'W', 'X', 'Y', 'Z',
    ]
}

/// The value of one upper-case digit or letter of the base32 alphabet.
pub open spec fn crockford_upper_value(c: char) -> Option<u8> {
    if '0' <= c <= '9' {
        Some((c as u32 - '0' as u32) as u8)
    } else if 'A' <= c <= 'H' {
        Some((c as u32 - 'A' as u32 + 10) as u8)
    } else if 'J' <= c <= 'K' {
        Some((c as u32 - 'J' as u32 + 18) as u8)
    } else if 'M' <= c <= 'N' {
        Some((c as u32 - 'M' as u32 + 20) as u8)
    } else if 'P' <= c <= 'T' {
        Some((c as u32 - 'P' as u32 + 22) as u8)
    } else if 'V' <= c <= 'Z' {
        Some((c as u32 - 'V' as u32 + 27) as u8)
    } else {
        None
    }
}

/// The value `ulid` reads from one character: that of a digit of the
/// alphabet, a letter of it also in lower case, and none for any other.
pub open spec fn crockford_value(c: char) -> Option<u8> {
    if 'a' <= c <= 'z' {
        crockford_upper_value((c as u32 - 32) as char)
    } else {
        crockford_upper_value(c)
    }
}

/// The 26 characters `ulid` writes for `value`: each names five bits,
/// most significant first, the first one the top three.
pub open spec fn ulid_text(value: u128) -> Seq<char> {
    Seq::new(26, |i: int| crockford_digits()[((value >> ((125 - 5 * i) as u128)) & 31u128) as int])
}

/// The value `ulid` accumulates from base32 characters: five bits each,
/// shifted in from the right, with what leaves the top 128 bits dropped.
pub open spec fn ulid_fold(text: Seq<char>) -> u128
    decreases text.len(),
{
    if text.len() == 0 {
        0
    } else {
        (ulid_fold(text.drop_last()) << 5u128) | (crockford_value(text.last()).unwrap() as u128)
    }
}

/// What `ulid` decodes `text` to: a value when the text is 26 characters of
/// the alphabet (either case), none otherwise.
pub open spec fn ulid_decode(text: Seq<char>) -> Option<u128> {
    if text.len() == 26 && forall|i: int| 0 <= i < 26 ==> (#[trigger] crockford_value(text[i])) is Some {
        Some(ulid_fold(text))
    } else {
        None
    }
}

/// Calls `ulid::Ulid::to_string`, which writes the value as
/// `ulid_text` says.
#[verifier::external_body]
pub(crate) fn encode_ulid(value: u128) -> (s: String)
    ensures
        s@ == ulid_text(value),
{
    ulid::Ulid(value).to_string()
}

/// Calls `ulid::Ulid::from_string`, which decodes the text as
/// `ulid_decode` says (it refuses any other length in bytes, and any byte
/// outside the alphabet).
#[verifier::external_body]
pub(crate) fn decode_ulid(text: &str) -> (r: Option<u128>)
    ensures
        r == ulid_decode(text@),
{
    match ulid::Ulid::from_string(text) {
        Ok(u) => Some(u.0),
        Err(_) => None,
    }
}

/// Each digit of the alphabet reads back as its position.
proof fn lemma_digit_values()
    ensures
        forall|d: int| 0 <= d < 32 ==> #[trigger] crockford_value(crockford_digits()[d]) == Some(d as u8),
{
    assert forall|d: int| 0 <= d < 32 implies #[trigger] crockford_value(crockford_digits()[d]) == Some(
        d as u8,
    ) by {
        if d < 16 {
            if d < 8 {
                if d < 4 {
                    if d == 0 {} else if d == 1 {} else if d == 2 {} else {}
                } else {
                    if d == 4 {} else if d == 5 {} else if d == 6 {} else {}
                }
            } else {
                if d < 12 {
                    if d == 8 {} else if d == 9 {} else if d == 10 {} else {}
                } else {
                    if d == 12 {} else if d == 13 {} else if d == 14 {} else {}
                }
            }
        } else {
            if d < 24 {
                if d < 20 {
                    if d == 16 {} else if d == 17 {} else if d == 18 {} else {}
                } else {
                    if d == 20 {} else if d == 21 {} else if d == 22 {} else {}
                }
            } else {
                if d < 28 {
                    if d == 24 {} else if d == 25 {} else if d == 26 {} else {}
                } else {
                    if d == 28 {} else if d == 29 {} else if d == 30 {} else {}
                }
            }
        }
    }
}

/// One more digit shifted in from the right extends the prefix of the
/// value's bits by five.
proof fn lemma_shift_in_digit(v: u128, s: u128, t: u128)
    by (bit_vector)
    requires
        s <= 125,
        t == s + 5,
    ensures
        ((v >> t) << 5u128) | ((v >> s) & 31u128) == v >> s,
        (v >> s) & 31u128 <= 31,
{
}

/// Nothing is left of a value shifted right by all its bits and more.
proof fn lemma_shift_out_all(v: u128)
    by (bit_vector)
    ensures
        v >> 130u128 == 0,
{
}

/// The first `k` characters of a value's text read back as its top `5 k`
/// bits.
proof fn lemma_prefix_reads_back(v: u128, k: int)
    requires
        0 <= k <= 26,
    ensures
        ulid_fold(ulid_text(v).take(k)) == v >> ((130 - 5 * k) as u128),
    decreases k,
{
    if k == 0 {
        lemma_shift_out_all(v);
        assert(ulid_text(v).take(0).len() == 0);
    } else {
        lemma_prefix_reads_back(v, k - 1);
        let s = (125 - 5 * (k - 1)) as u128;
        let t = (130 - 5 * (k - 1)) as u128;
        lemma_shift_in_digit(v, s, t);
        lemma_digit_values();
        let text = ulid_text(v).take(k);
        assert(text.drop_last() =~= ulid_text(v).take(k - 1));
        let d = (v >> s) & 31u128;
        assert(text.last() == crockford_digits()[d as int]);
        assert(crockford_value(text.last()) == Some(d as u8));
        assert((d as u8) as u128 == d);
    }
}

/// Reading back the text `ulid` writes for a value gives the value again.
pub proof fn lemma_ulid_text_round_trip(v: u128)
    ensures
        ulid_decode(ulid_text(v)) == Some(v),
{
    lemma_digit_values();
    let text = ulid_text(v);
    assert forall|i: int| 0 <= i < 26 implies (#[trigger] crockford_value(text[i])) is Some by {
        let s = (125 - 5 * i) as u128;
        lemma_shift_in_digit(v, s, (s + 5) as u128);
    }
    lemma_prefix_reads_back(v, 26);
    assert(text.take(26) =~= text);
    assert(v >> 0u128 == v) by (bit_vector);
}

} // verus!
