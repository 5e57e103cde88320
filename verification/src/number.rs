//! Period numbers written in decimal.

use vstd::prelude::*;

verus! {

/// The value of a decimal digit; no value for any other character.
pub open spec fn digit_value(c: char) -> Option<nat> {
    if 48 <= c as u32 && c as u32 <= 57 {
        Some((c as u32 - 48) as nat)
    } else {
        None
    }
}

/// The number that a non-empty run of ASCII digits writes in base ten.
/// The empty string and strings with any other character write no number.
pub open spec fn decimal_value(s: Seq<char>) -> Option<nat>
    decreases s.len(),
{
    if s.len() == 0 {
        None
    } else {
        match digit_value(s.last()) {
            None => None,
            Some(d) => if s.len() == 1 {
                Some(d)
            } else {
                match decimal_value(s.drop_last()) {
                    None => None,
                    Some(high) => Some(10 * high + d),
                }
            },
        }
    }
}

/// The period number that a string writes: its decimal value, where it has
/// one and it fits in eight bits.
pub open spec fn period_number(s: Seq<char>) -> Option<u8> {
    match decimal_value(s) {
        Some(n) => if n <= 255 {
            Some(n as u8)
        } else {
            None
        },
        None => None,
    }
}

/// Every non-empty prefix of a decimal number is a decimal number, and not
/// a larger one.
pub proof fn lemma_decimal_prefix(s: Seq<char>, k: int)
    requires
        0 < k <= s.len(),
        decimal_value(s) is Some,
    ensures
        decimal_value(s.take(k)) is Some,
        decimal_value(s.take(k)).unwrap() <= decimal_value(s).unwrap(),
        digit_value(s[k - 1]) is Some,
    decreases s.len(),
{
    if k == s.len() {
        assert(s.take(k) =~= s);
    } else {
        lemma_decimal_prefix(s.drop_last(), k);
        assert(s.drop_last().take(k) =~= s.take(k));
    }
}

/// The value of a decimal digit.
pub fn digit_of(c: char) -> (d: Option<u8>)
    ensures
        match d {
            Some(v) => digit_value(c) == Some(v as nat) && v <= 9,
            None => digit_value(c) is None,
        },
{
    let code: u32 = c as u32;
    if 48 <= code && code <= 57 {
        Some((code - 48) as u8)
    } else {
        None
    }
}

/// Reads a period number: one or more ASCII digits whose value is at most
/// 255. Leading zeros are allowed; a sign, a blank or a digit of another
/// script is not.
pub fn parse_period_number(text: &str) -> (number: Option<u8>)
    ensures
        number == period_number(text@),
{
    let n: usize = text.unicode_len();
    if n == 0 {
        return None;
    }
    let mut acc: u16 = 0;
    let mut i: usize = 0;
    while i < n
        invariant
            n == text@.len(),
            i <= n,
            acc <= 255,
            i == 0 ==> acc == 0,
            i > 0 ==> decimal_value(text@.take(i as int)) == Some(acc as nat),
        decreases n - i,
    {
        let c = text.get_char(i);
        let ghost upto = text@.take(i + 1);
        proof {
            assert(upto.last() == text@[i as int]);
            assert(upto.drop_last() =~= text@.take(i as int));
            if decimal_value(text@) is Some {
                lemma_decimal_prefix(text@, i + 1);
            }
        }
        match digit_of(c) {
            None => {
                return None;
            },
            Some(d) => {
                let next: u16 = acc * 10 + d as u16;
                assert(decimal_value(upto) == Some(next as nat));
                if next > 255 {
                    return None;
                }
                acc = next;
            },
        }
        i = i + 1;
    }
    assert(text@.take(n as int) =~= text@);
    Some(acc as u8)
}

} // verus!
