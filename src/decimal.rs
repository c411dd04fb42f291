//! Unsigned decimal numerals, as they stand in `Content-Length` and in a port.
use vstd::prelude::*;

verus! {

/// Whether `b` is an ASCII digit.
pub open spec fn is_digit(b: u8) -> bool {
    48 <= b <= 57
}

/// The ASCII digits of `n`, most significant first, without leading zeros.
pub open spec fn decimal_digits(n: nat) -> Seq<u8>
    decreases n,
{
    if n < 10 {
        seq![(48 + n) as u8]
    } else {
        decimal_digits(n / 10).push((48 + n % 10) as u8)
    }
}

/// The number that a run of ASCII digits stands for (last digit least significant).
pub open spec fn digits_value(s: Seq<u8>) -> nat
    decreases s.len(),
{
    if s.len() == 0 {
        0
    } else {
        digits_value(s.drop_last()) * 10 + (s.last() - 48) as nat
    }
}

/// The value of a numeral: one or more ASCII digits and nothing else.
pub open spec fn decimal_value(s: Seq<u8>) -> Option<nat> {
    if s.len() > 0 && (forall|i: int| 0 <= i < s.len() ==> is_digit(#[trigger] s[i])) {
        Some(digits_value(s))
    } else {
        None
    }
}

/// Reading back the digits that `decimal_digits` writes gives the number again.
pub proof fn lemma_decimal_round_trip(n: nat)
    ensures
        decimal_value(decimal_digits(n)) == Some(n),
        decimal_digits(n).len() > 0,
    decreases n,
{
    let s = decimal_digits(n);
    if n < 10 {
        assert(s.drop_last() =~= Seq::<u8>::empty());
        assert(digits_value(s.drop_last()) == 0);
        assert(s.last() == (48 + n) as u8);
        assert(digits_value(s) == n);
    } else {
        lemma_decimal_round_trip(n / 10);
        assert(s.drop_last() == decimal_digits(n / 10));
        assert(s.last() == (48 + n % 10) as u8);
        assert(digits_value(s) == (n / 10) * 10 + n % 10);
        assert((n / 10) * 10 + n % 10 == n) by (nonlinear_arith);
        assert forall|i: int| 0 <= i < s.len() implies is_digit(#[trigger] s[i]) by {
            if i < s.len() - 1 {
                assert(s[i] == decimal_digits(n / 10)[i]);
            }
        }
    }
}

/// Appends the decimal digits of `n` to `out`.
pub fn push_decimal(out: &mut Vec<u8>, n: usize)
    ensures
        final(out)@ == old(out)@ + decimal_digits(n as nat),
    decreases n,
{
    if n < 10 {
        out.push((48 + n) as u8);
    } else {
        push_decimal(out, n / 10);
        out.push((48 + n % 10) as u8);
    }
}

/// The value of a numeral of ASCII digits, or `None` where `s` is empty, holds
/// anything but digits, or stands for a number larger than `usize::MAX`.
pub fn parse_decimal(s: &[u8]) -> (r: Option<usize>)
    ensures
        r == (match decimal_value(s@) {
            Some(v) => if v <= usize::MAX {
                Some(v as usize)
            } else {
                None
            },
            None => None,
        }),
{
    if s.len() == 0 {
        return None;
    }
    let mut acc: usize = 0;
    let mut fits = true;
    let mut i: usize = 0;
    while i < s.len()
        invariant
            0 <= i <= s@.len(),
            forall|k: int| 0 <= k < i ==> is_digit(#[trigger] s@[k]),
            fits ==> acc as nat == digits_value(s@.take(i as int)),
            !fits ==> digits_value(s@.take(i as int)) > usize::MAX,
        decreases s@.len() - i,
    {
        let b = s[i];
        if !(48 <= b && b <= 57) {
            assert(decimal_value(s@) is None);
            return None;
        }
        assert(s@.take(i + 1).drop_last() == s@.take(i as int));
        let d = (b - 48) as usize;
        if fits {
            if acc <= (usize::MAX - d) / 10 {
                acc = acc * 10 + d;
            } else {
                fits = false;
            }
        } else {
            assert(digits_value(s@.take(i as int)) * 10 + d >= digits_value(s@.take(i as int)));
        }
        i = i + 1;
    }
    assert(s@.take(i as int) == s@);
    if fits {
        Some(acc)
    } else {
        None
    }
}

} // verus!
