//! Reading decimal numbers from bytes.

use vstd::prelude::*;

verus! {

/// Whether `b` is a decimal digit.
pub open spec fn is_digit(b: u8) -> bool {
    48 <= b && b <= 57
}

/// The number that a digit stands for.
pub open spec fn digit_value(b: u8) -> nat {
    if is_digit(b) {
        (b - 48) as nat
    } else {
        0
    }
}

/// The number that a run of decimal digits stands for.
pub open spec fn digits_value(d: Seq<u8>) -> nat
    decreases d.len(),
{
    if d.len() == 0 {
        0
    } else {
        digits_value(d.drop_last()) * 10 + digit_value(d.last())
    }
}

/// Whether `d` holds decimal digits only.
pub open spec fn all_digits(d: Seq<u8>) -> bool {
    forall|i: int| 0 <= i < d.len() ==> is_digit(#[trigger] d[i])
}

/// The number that the digits `d` stand for, where there is at least one
/// digit, nothing but digits, and the number is no more than `limit`.
pub open spec fn bounded_value(d: Seq<u8>, limit: u64) -> Option<u64> {
    if d.len() > 0 && all_digits(d) && digits_value(d) <= limit {
        Some(digits_value(d) as u64)
    } else {
        None
    }
}

/// Whether `s` starts with a sign that a number of this kind may have: a plus
/// sign, or a minus sign where `signed`.
pub open spec fn has_sign(s: Seq<u8>, signed: bool) -> bool {
    s.len() > 0 && (s[0] == 43 || (signed && s[0] == 45))
}

/// The digits of a number: what stands behind its sign, if it has one.
pub open spec fn digits_of(s: Seq<u8>, signed: bool) -> Seq<u8> {
    if has_sign(s, signed) {
        s.skip(1)
    } else {
        s
    }
}

/// The number that `s` stands for: decimal digits, at least one, with or
/// without a plus sign in front, and no more than 64 bits can hold.
pub open spec fn parsed_u64(s: Seq<u8>) -> Option<u64> {
    bounded_value(digits_of(s, false), u64::MAX)
}

/// The number that `s` stands for: decimal digits, at least one, with or
/// without a plus or minus sign in front, and within what 64 bits with a sign
/// can hold.
pub open spec fn parsed_i64(s: Seq<u8>) -> Option<i64> {
    let d = digits_of(s, true);
    if s.len() > 0 && s[0] == 45 {
        match bounded_value(d, 0x8000_0000_0000_0000u64) {
            Some(v) => Some((0 - v) as i64),
            None => None,
        }
    } else {
        match bounded_value(d, 0x7fff_ffff_ffff_ffffu64) {
            Some(v) => Some(v as i64),
            None => None,
        }
    }
}

/// The digits read so far never stand for more than all of them.
proof fn lemma_digits_value_grows(d: Seq<u8>, k: int)
    requires
        0 <= k <= d.len(),
    ensures
        digits_value(d.take(k)) <= digits_value(d),
    decreases d.len(),
{
    if k == d.len() {
        assert(d.take(k) =~= d);
    } else {
        lemma_digits_value_grows(d.drop_last(), k);
        assert(d.drop_last().take(k) =~= d.take(k));
    }
}

/// Reads the digits of `s` from `start` on as a number of at most `limit`.
pub fn parse_digits(s: &[u8], start: usize, limit: u64) -> (r: Option<u64>)
    requires
        start <= s@.len(),
    ensures
        r == bounded_value(s@.skip(start as int), limit),
{
    let n: usize = s.len();
    let ghost d = s@.skip(start as int);
    if start == n {
        return None;
    }
    let mut acc: u64 = 0;
    let mut i: usize = start;
    proof {
        assert(d.take(0) =~= Seq::<u8>::empty());
    }
    while i < n
        invariant
            n == s@.len(),
            start <= i <= n,
            d == s@.skip(start as int),
            all_digits(d.take(i - start)),
            acc as nat == digits_value(d.take(i - start)),
            acc <= limit,
        decreases n - i,
    {
        let b: u8 = s[i];
        let ghost upto = d.take(i - start + 1);
        proof {
            assert(upto.drop_last() =~= d.take(i - start));
            assert(upto.last() == b);
            assert(d[i - start] == b);
        }
        if b < 48 || b > 57 {
            proof {
                assert(!is_digit(d[i - start]));
            }
            return None;
        }
        let digit: u64 = (b - 48) as u64;
        if digit > limit || acc > (limit - digit) / 10 {
            proof {
                assert(digit_value(b) == digit as nat);
                assert(digits_value(upto) == acc as nat * 10 + digit as nat);
                assert(acc as int * 10 + digit as int > limit as int);
                lemma_digits_value_grows(d, i - start + 1);
            }
            return None;
        }
        acc = acc * 10 + digit;
        proof {
            assert forall|k: int| 0 <= k < upto.len() implies is_digit(#[trigger] upto[k]) by {
                if k < upto.len() - 1 {
                    assert(upto[k] == d.take(i - start)[k]);
                }
            }
        }
        i = i + 1;
    }
    proof {
        assert(d.take(n - start) =~= d);
    }
    Some(acc)
}

/// Reads the number that `s` stands for.
pub fn parse_u64(s: &[u8]) -> (r: Option<u64>)
    ensures
        r == parsed_u64(s@),
{
    let start: usize = if s.len() > 0 && s[0] == 43 { 1 } else { 0 };
    proof {
        assert(s@.skip(0) =~= s@);
    }
    parse_digits(s, start, u64::MAX)
}

/// Reads the number that `s` stands for.
pub fn parse_i64(s: &[u8]) -> (r: Option<i64>)
    ensures
        r == parsed_i64(s@),
{
    let negative: bool = s.len() > 0 && s[0] == 45;
    let start: usize = if s.len() > 0 && (s[0] == 43 || s[0] == 45) { 1 } else { 0 };
    proof {
        assert(s@.skip(0) =~= s@);
    }
    if negative {
        match parse_digits(s, start, 0x8000_0000_0000_0000u64) {
            Some(v) => {
                if v == 0x8000_0000_0000_0000u64 {
                    Some(i64::MIN)
                } else {
                    Some(0 - (v as i64))
                }
            },
            None => None,
        }
    } else {
        match parse_digits(s, start, 0x7fff_ffff_ffff_ffffu64) {
            Some(v) => Some(v as i64),
            None => None,
        }
    }
}

} // verus!
