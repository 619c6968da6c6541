//! Unsigned decimal numbers as ASCII digits.

use vstd::prelude::*;

verus! {

/// An ASCII digit.
pub open spec fn is_digit(b: u8) -> bool {
    0x30 <= b <= 0x39
}

/// Every byte is an ASCII digit.
pub open spec fn all_digits(s: Seq<u8>) -> bool {
    forall|i: int| 0 <= i < s.len() ==> is_digit(#[trigger] s[i])
}

/// The digits of `n`, most significant first, without leading zeros.
pub open spec fn decimal(n: nat) -> Seq<u8>
    decreases n,
{
    if n < 10 {
        seq![(0x30 + n) as u8]
    } else {
        decimal(n / 10).push((0x30 + n % 10) as u8)
    }
}

/// The number that a string of digits denotes; leading zeros count for nothing.
pub open spec fn value(s: Seq<u8>) -> nat
    decreases s.len(),
{
    if s.len() == 0 {
        0
    } else {
        value(s.drop_last()) * 10 + (s.last() - 0x30) as nat
    }
}

/// The number written in `s`: one digit or more and nothing else.
pub open spec fn number(s: Seq<u8>) -> Option<nat> {
    if s.len() > 0 && all_digits(s) {
        Some(value(s))
    } else {
        None
    }
}

/// What is written by `decimal` is read back by `number`.
pub proof fn lemma_number_of_decimal(n: nat)
    ensures
        decimal(n).len() > 0,
        all_digits(decimal(n)),
        value(decimal(n)) == n,
        number(decimal(n)) == Some(n),
    decreases n,
{
    if n < 10 {
        let s = decimal(n);
        assert(s.drop_last().len() == 0);
        assert(value(s) == value(s.drop_last()) * 10 + (s.last() - 0x30) as nat);
    } else {
        lemma_number_of_decimal(n / 10);
        let s = decimal(n);
        assert(s.drop_last() == decimal(n / 10));
        assert(value(s) == value(s.drop_last()) * 10 + (s.last() - 0x30) as nat);
    }
}

/// Digits that follow can only make the number larger.
pub proof fn lemma_value_grows(s: Seq<u8>, k: int)
    requires
        all_digits(s),
        0 <= k <= s.len(),
    ensures
        value(s.take(k)) <= value(s),
    decreases s.len() - k,
{
    if k < s.len() {
        lemma_value_grows(s, k + 1);
        assert(s.take(k + 1).drop_last() == s.take(k));
        assert(is_digit(s[k]));
    } else {
        assert(s.take(k) == s);
    }
}

/// Appends the digits of `n` to `out`.
pub fn write_decimal(out: &mut Vec<u8>, n: usize)
    ensures
        final(out)@ == old(out)@ + decimal(n as nat),
    decreases n,
{
    if n < 10 {
        out.push(0x30u8 + n as u8);
        assert(out@ == old(out)@ + decimal(n as nat));
    } else {
        write_decimal(out, n / 10);
        out.push(0x30u8 + (n % 10) as u8);
        assert(out@ == old(out)@ + decimal(n as nat));
    }
}

/// The digits of `n`.
pub fn to_decimal(n: usize) -> (out: Vec<u8>)
    ensures
        out@ == decimal(n as nat),
{
    let mut out: Vec<u8> = Vec::new();
    write_decimal(&mut out, n);
    out
}

/// Reads a number of at most `max` from a string of digits; anything else,
/// or a larger number, gives `None`.
pub fn parse_decimal(s: &[u8], max: usize) -> (r: Option<usize>)
    ensures
        r == match number(s@) {
            Some(n) if n <= max => Some(n as usize),
            _ => None::<usize>,
        },
{
    if s.len() == 0 {
        return None;
    }
    let mut acc: usize = 0;
    let mut i: usize = 0;
    assert(s@.take(0).len() == 0);
    while i < s.len()
        invariant
            i <= s@.len(),
            all_digits(s@.take(i as int)),
            acc == value(s@.take(i as int)),
            acc <= max,
        decreases s@.len() - i,
    {
        let b: u8 = s[i];
        if b < 0x30 || b > 0x39 {
            assert(!is_digit(s@[i as int]));
            return None;
        }
        let d: usize = (b - 0x30) as usize;
        proof {
            assert(s@.take(i + 1).drop_last() == s@.take(i as int));
            assert(value(s@.take(i + 1)) == acc * 10 + d);
            assert forall|k: int| 0 <= k < i + 1 implies is_digit(#[trigger] s@.take(i + 1)[k]) by {
                if k < i {
                    assert(s@.take(i + 1)[k] == s@.take(i as int)[k]);
                }
            }
        }
        if d > max || acc > (max - d) / 10 {
            proof {
                assert(value(s@.take(i + 1)) > max);
                if all_digits(s@) {
                    lemma_value_grows(s@, i + 1);
                }
            }
            return None;
        }
        acc = acc * 10 + d;
        i += 1;
    }
    assert(s@.take(i as int) == s@);
    Some(acc)
}

} // verus!
