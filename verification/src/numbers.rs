//! Decimal text of integers and integer values of decimal text: the numeric
//! interpretation used by aggregate evaluation. Values are textual; a value
//! that does not parse as a (signed, 64-bit) decimal integer has the numeric
//! value zero under the aggregates.

use vstd::prelude::*;
use vstd::string::StringExecFns;

verus! {

/// The decimal digit character of `d` (meaningful for `0 <= d <= 9`).
pub open spec fn digit_char(d: int) -> char {
    ((48 + d) as u8) as char
}

/// The decimal digit string of a non-negative integer, without sign and
/// without leading zeros.
pub open spec fn u_dec_str(n: int) -> Seq<char>
    decreases n,
{
    if n < 10 {
        seq![digit_char(n)]
    } else {
        u_dec_str(n / 10).push(digit_char(n % 10))
    }
}

/// The decimal string of an integer: a `-` sign for negative values, then
/// the digit string of the magnitude.
pub open spec fn int_str(v: int) -> Seq<char> {
    if v < 0 {
        seq!['-'] + u_dec_str(-v)
    } else {
        u_dec_str(v)
    }
}

/// Whether `c` is a decimal digit.
pub open spec fn is_digit(c: char) -> bool {
    48 <= c as int <= 57
}

/// The numeric value of a digit character.
pub open spec fn digit_val(c: char) -> int {
    c as int - 48
}

/// Whether every character of `s` is a decimal digit.
pub open spec fn all_digits(s: Seq<char>) -> bool {
    forall|i: int| 0 <= i < s.len() ==> is_digit(#[trigger] s[i])
}

/// The value of a digit string read in base ten.
pub open spec fn digits_val(s: Seq<char>) -> int
    decreases s.len(),
{
    if s.len() == 0 {
        0
    } else {
        digits_val(s.drop_last()) * 10 + digit_val(s.last())
    }
}

/// The integer denoted by `s`: an optional `-` sign, then one or more
/// digits, with the value required to lie in the 64-bit signed range.
/// Anything else denotes no integer.
pub open spec fn parse_int(s: Seq<char>) -> Option<int> {
    if s.len() >= 2 && s[0] == '-' {
        let d = s.skip(1);
        if all_digits(d) && digits_val(d) <= i64::MAX as int + 1 {
            Some(-digits_val(d))
        } else {
            None
        }
    } else if s.len() >= 1 && all_digits(s) && digits_val(s) <= i64::MAX as int {
        Some(digits_val(s))
    } else {
        None
    }
}

/// The numeric value a textual value contributes to a sum: its parsed
/// integer, or zero when it denotes no integer.
pub open spec fn num_val(s: Seq<char>) -> int {
    match parse_int(s) {
        Some(v) => v,
        None => 0,
    }
}

/// Every numeric value lies within one step of the 64-bit signed range.
pub proof fn lemma_num_val_bound(s: Seq<char>)
    ensures
        -(i64::MAX as int + 1) <= num_val(s) <= i64::MAX as int + 1,
{
    if s.len() >= 2 && s[0] == '-' {
        let d = s.skip(1);
        if all_digits(d) {
            lemma_digits_val_nonneg(d);
        }
    } else if s.len() >= 1 && all_digits(s) {
        lemma_digits_val_nonneg(s);
    }
}

/// A digit string has a non-negative value.
pub proof fn lemma_digits_val_nonneg(s: Seq<char>)
    requires
        all_digits(s),
    ensures
        digits_val(s) >= 0,
    decreases s.len(),
{
    if s.len() > 0 {
        assert(all_digits(s.drop_last()));
        lemma_digits_val_nonneg(s.drop_last());
    }
}

/// The value of a digit string is at least the value of any prefix of it.
pub proof fn lemma_digits_val_mono(s: Seq<char>, k: int)
    requires
        all_digits(s),
        0 <= k <= s.len(),
    ensures
        digits_val(s.take(k)) <= digits_val(s),
    decreases s.len(),
{
    if k < s.len() {
        assert(all_digits(s.drop_last()));
        assert(s.take(k) =~= s.drop_last().take(k));
        lemma_digits_val_mono(s.drop_last(), k);
        lemma_digits_val_nonneg(s.drop_last());
    } else {
        assert(s.take(k) =~= s);
    }
}

/// The one-character string of a decimal digit.
fn digit_string(d: u8) -> (r: String)
    requires
        d < 10,
    ensures
        r@ =~= seq![digit_char(d as int)],
{
    let s: &str = match d {
        0 => "0",
        1 => "1",
        2 => "2",
        3 => "3",
        4 => "4",
        5 => "5",
        6 => "6",
        7 => "7",
        8 => "8",
        _ => "9",
    };
    proof {
        reveal_strlit("0");
        reveal_strlit("1");
        reveal_strlit("2");
        reveal_strlit("3");
        reveal_strlit("4");
        reveal_strlit("5");
        reveal_strlit("6");
        reveal_strlit("7");
        reveal_strlit("8");
        reveal_strlit("9");
    }
    String::from_str(s)
}

/// The decimal digit string of an unsigned value.
pub fn fmt_u128(n: u128) -> (r: String)
    ensures
        r@ == u_dec_str(n as int),
    decreases n,
{
    if n < 10 {
        let r = digit_string(n as u8);
        assert(r@ =~= u_dec_str(n as int));
        r
    } else {
        let mut r = fmt_u128(n / 10);
        let d = digit_string((n % 10) as u8);
        r.append(d.as_str());
        assert(r@ =~= u_dec_str(n as int));
        r
    }
}

/// The decimal string of a signed value.
pub fn fmt_i128(v: i128) -> (r: String)
    requires
        v > i128::MIN,
    ensures
        r@ == int_str(v as int),
{
    if v < 0 {
        let digits = fmt_u128((-v) as u128);
        let r = String::from_str("-").concat(digits.as_str());
        proof {
            reveal_strlit("-");
            assert(r@ =~= int_str(v as int));
        }
        r
    } else {
        fmt_u128(v as u128)
    }
}

/// The 64-bit integer denoted by `s`, or `None` when `s` denotes no integer.
pub fn parse_int_str(s: &str) -> (r: Option<i64>)
    ensures
        match r {
            Some(v) => parse_int(s@) == Some(v as int),
            None => parse_int(s@) is None,
        },
{
    let n = s.unicode_len();
    if n == 0 {
        return None;
    }
    let neg = s.get_char(0) == '-';
    let start: usize = if neg {
        1
    } else {
        0
    };
    if start == n {
        return None;
    }
    let ghost digits = if neg {
        s@.skip(1)
    } else {
        s@
    };
    let limit: i128 = if neg {
        i64::MAX as i128 + 1
    } else {
        i64::MAX as i128
    };
    let mut acc: i128 = 0;
    let mut i: usize = start;
    while i < n
        invariant
            start <= i <= n,
            n == s@.len(),
            start == if neg { 1int } else { 0int },
            digits == if neg { s@.skip(1) } else { s@ },
            neg == (s@[0] == '-'),
            limit as int == if neg {
                i64::MAX as int + 1
            } else {
                i64::MAX as int
            },
            all_digits(digits.take(i - start)),
            acc == digits_val(digits.take(i - start)),
            0 <= acc <= limit,
        decreases n - i,
    {
        let c = s.get_char(i);
        let u = c as u32;
        if u < 48 || u > 57 {
            proof {
                assert(digits[i - start] == s@[i as int]);
                assert(!is_digit(digits[i - start]));
                assert(!all_digits(digits));
                assert(parse_int(s@) is None);
            }
            return None;
        }
        proof {
            let k = i + 1 - start;
            assert(digits.take(k).drop_last() =~= digits.take(i - start));
            assert(digits.take(k).last() == digits[i - start]);
            assert(digits[i - start] == s@[i as int]);
            assert(is_digit(s@[i as int]));
            assert forall|j: int| 0 <= j < k implies is_digit(#[trigger] digits.take(k)[j]) by {
                if j < k - 1 {
                    assert(digits.take(k)[j] == digits.take(i - start)[j]);
                }
            }
            assert(digits_val(digits.take(k)) == digits_val(digits.take(i - start)) * 10
                + digit_val(s@[i as int]));
        }
        let d: i128 = (u - 48) as i128;
        acc = acc * 10 + d;
        i += 1;
        proof {
            assert(all_digits(digits.take(i - start)));
            assert(acc == digits_val(digits.take(i - start)));
        }
        if acc > limit {
            proof {
                if all_digits(digits) {
                    lemma_digits_val_mono(digits, i - start);
                    assert(digits_val(digits) >= acc > limit);
                }
                assert(parse_int(s@) is None);
            }
            return None;
        }
    }
    proof {
        assert(digits.take(n - start) =~= digits);
    }
    if neg {
        assert(s@.len() >= 2);
        Some((-acc) as i64)
    } else {
        Some(acc as i64)
    }
}

} // verus!
