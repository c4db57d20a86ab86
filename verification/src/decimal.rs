//! Whole numbers written in decimal digits.

use vstd::prelude::*;

verus! {

/// One of the ten digits `0` to `9`.
pub open spec fn is_digit(c: char) -> bool {
    0x30 <= c as u32 <= 0x39
}

/// What the digit counts for.
pub open spec fn digit_value(c: char) -> int {
    (c as u32) - 0x30
}

/// Every character is a digit.
pub open spec fn all_digits(s: Seq<char>) -> bool {
    forall|i: int| 0 <= i < s.len() ==> is_digit(#[trigger] s[i])
}

/// The number that the digits write; none of them writes zero.
pub open spec fn decimal(s: Seq<char>) -> nat
    decreases s.len(),
{
    if s.len() == 0 {
        0
    } else {
        (10 * decimal(s.drop_last()) + digit_value(s.last())) as nat
    }
}

/// The number that `s` writes: digits, at least one, with `+` or `-` before
/// them or neither. Anything else writes no number.
pub open spec fn signed_decimal(s: Seq<char>) -> Option<int> {
    let signed = s.len() > 0 && (s[0] == '-' || s[0] == '+');
    let digits = if signed {
        s.skip(1)
    } else {
        s
    };
    if digits.len() == 0 || !all_digits(digits) {
        None
    } else if s[0] == '-' {
        Some(-(decimal(digits) as int))
    } else {
        Some(decimal(digits) as int)
    }
}

/// The number that `s` writes, where an `i64` can hold it.
pub open spec fn parsed_i64(s: Seq<char>) -> Option<i64> {
    match signed_decimal(s) {
        Some(v) => if i64::MIN <= v <= i64::MAX {
            Some(v as i64)
        } else {
            None
        },
        None => None,
    }
}

/// More digits never write a smaller number.
pub proof fn lemma_decimal_grows(s: Seq<char>, k: int)
    requires
        all_digits(s),
        0 <= k <= s.len(),
    ensures
        decimal(s.take(k)) <= decimal(s),
    decreases s.len() - k,
{
    if k == s.len() {
        assert(s.take(k) =~= s);
    } else {
        lemma_decimal_grows(s, k + 1);
        assert(s.take(k + 1).drop_last() =~= s.take(k));
        assert(is_digit(s[k]));
    }
}

/// Whether the character is one of the ten digits.
pub fn is_ascii_digit(c: char) -> (r: bool)
    ensures
        r == is_digit(c),
{
    let n: u32 = c as u32;
    0x30 <= n && n <= 0x39
}

/// Reads a whole number as `str::parse::<i64>` reads it.
pub fn parse_i64(s: &[char]) -> (r: Option<i64>)
    ensures
        r == parsed_i64(s@),
{
    if s.len() == 0 {
        return None;
    }
    let negative = s[0] == '-';
    let start: usize = if s[0] == '-' || s[0] == '+' {
        1
    } else {
        0
    };
    if start == s.len() {
        return None;
    }
    let ghost digits = s@.skip(start as int);
    proof {
        assert(s@.skip(0) =~= s@);
    }
    let limit: i128 = if negative {
        0x8000_0000_0000_0000
    } else {
        0x7fff_ffff_ffff_ffff
    };
    let mut acc: i128 = 0;
    let mut k: usize = start;
    while k < s.len()
        invariant
            s.len() > 0,
            negative == (s[0] == '-'),
            start == if s[0] == '-' || s[0] == '+' {
                1int
            } else {
                0int
            },
            limit == if negative {
                0x8000_0000_0000_0000int
            } else {
                0x7fff_ffff_ffff_ffffint
            },
            start < s.len(),
            start <= k <= s.len(),
            digits == s@.skip(start as int),
            s@.skip(0) == s@,
            all_digits(digits.take(k - start)),
            acc == decimal(digits.take(k - start)),
            0 <= acc <= limit <= 0x8000_0000_0000_0000,
        decreases s.len() - k,
    {
        let c = s[k];
        let ghost seen = digits.take(k - start + 1);
        proof {
            assert(seen.drop_last() =~= digits.take(k - start));
            assert(seen.last() == c);
        }
        if !is_ascii_digit(c) {
            assert(!is_digit(digits[k - start]));
            return None;
        }
        let n: u32 = c as u32;
        let d: i128 = (n - 0x30) as i128;
        acc = acc * 10 + d;
        assert(acc == decimal(seen));
        assert(all_digits(seen)) by {
            assert forall|i: int| 0 <= i < seen.len() implies is_digit(#[trigger] seen[i]) by {
                if i < k - start {
                    assert(seen[i] == digits.take(k - start)[i]);
                }
            }
        }
        if acc > limit {
            proof {
                if all_digits(digits) {
                    lemma_decimal_grows(digits, k - start + 1);
                }
            }
            return None;
        }
        k += 1;
    }
    assert(digits.take(k - start) =~= digits);
    if negative {
        Some((-acc) as i64)
    } else {
        Some(acc as i64)
    }
}

/// Digits, and at least one of them: a number written without a sign.
pub open spec fn is_number(s: Seq<char>) -> bool {
    s.len() > 0 && all_digits(s)
}

/// Up to three digits write less than a thousand, two less than a hundred,
/// one less than ten.
pub proof fn lemma_decimal_of_few(s: Seq<char>)
    requires
        all_digits(s),
        s.len() <= 3,
    ensures
        s.len() == 1 ==> decimal(s) <= 9,
        s.len() == 2 ==> decimal(s) <= 99,
        s.len() == 3 ==> decimal(s) <= 999,
    decreases s.len(),
{
    if s.len() > 0 {
        let before = s.drop_last();
        assert forall|i: int| 0 <= i < before.len() implies is_digit(#[trigger] before[i]) by {
            assert(before[i] == s[i]);
        }
        lemma_decimal_of_few(before);
        assert(is_digit(s.last()));
        if before.len() == 0 {
            assert(decimal(before) == 0);
        }
    }
}

/// Reads a number written in digits alone, as far as an `i64` holds it.
pub fn read_number(s: &[char]) -> (r: Option<i64>)
    ensures
        match r {
            Some(v) => is_number(s@) && v == decimal(s@),
            None => !is_number(s@) || decimal(s@) > i64::MAX,
        },
{
    if s.len() == 0 {
        return None;
    }
    if !is_ascii_digit(s[0]) {
        return None;
    }
    parse_i64(s)
}

} // verus!
