//! Decimal integer literals: parsing a token as a signed 128-bit integer and
//! printing one back, both specified against the mathematical decimal value.

use vstd::prelude::*;
use vstd::string::StrSliceExecFns;

use crate::text::push_char;

verus! {

/// A decimal digit.
pub open spec fn is_digit(c: char) -> bool {
    '0' <= c && c <= '9'
}

/// The numeric value of a decimal digit.
pub open spec fn digit_val(c: char) -> int {
    c as int - '0' as int
}

/// The character for a digit value.
pub open spec fn digit_char(d: int) -> char {
    if d == 0 {
        '0'
    } else if d == 1 {
        '1'
    } else if d == 2 {
        '2'
    } else if d == 3 {
        '3'
    } else if d == 4 {
        '4'
    } else if d == 5 {
        '5'
    } else if d == 6 {
        '6'
    } else if d == 7 {
        '7'
    } else if d == 8 {
        '8'
    } else {
        '9'
    }
}

/// Every character of `s` is a decimal digit.
pub open spec fn all_digits(s: Seq<char>) -> bool {
    forall|i: int| 0 <= i < s.len() ==> is_digit(#[trigger] s[i])
}

/// The value of a run of decimal digits, most significant first.
pub open spec fn digits_value(s: Seq<char>) -> int
    decreases s.len(),
{
    if s.len() == 0 {
        0
    } else {
        digits_value(s.drop_last()) * 10 + digit_val(s.last())
    }
}

/// The mathematical value of an integer token: an optional sign followed by
/// at least one digit. `None` where the token has any other shape.
pub open spec fn int_token_value(s: Seq<char>) -> Option<int> {
    if s.len() >= 2 && (s[0] == '+' || s[0] == '-') && all_digits(s.skip(1)) {
        if s[0] == '-' {
            Some(-digits_value(s.skip(1)))
        } else {
            Some(digits_value(s.skip(1)))
        }
    } else if s.len() >= 1 && all_digits(s) {
        Some(digits_value(s))
    } else {
        None
    }
}

/// What parsing a token as a signed 128-bit decimal integer returns: the
/// value where the shape is right and the value fits, `None` otherwise.
pub open spec fn parse_int_v(s: Seq<char>) -> Option<i128> {
    match int_token_value(s) {
        Some(v) => if i128::MIN <= v <= i128::MAX {
            Some(v as i128)
        } else {
            None
        },
        None => None,
    }
}

/// A run of digits has a non-negative value.
pub proof fn lemma_digits_value_nonneg(s: Seq<char>)
    requires
        all_digits(s),
    ensures
        digits_value(s) >= 0,
    decreases s.len(),
{
    if s.len() > 0 {
        assert(all_digits(s.drop_last()));
        lemma_digits_value_nonneg(s.drop_last());
    }
}

/// Extending a digit run to the right never shrinks its value.
pub proof fn lemma_digits_value_prefix_le(s: Seq<char>, j: int, k: int)
    requires
        0 <= j <= k <= s.len(),
        all_digits(s.subrange(0, k)),
    ensures
        digits_value(s.subrange(0, j)) <= digits_value(s.subrange(0, k)),
    decreases k - j,
{
    if j < k {
        let a = s.subrange(0, k - 1);
        let b = s.subrange(0, k);
        assert(b.drop_last() =~= a);
        assert(forall|i: int| 0 <= i < a.len() ==> a[i] == b[i]);
        assert(all_digits(a));
        lemma_digits_value_nonneg(a);
        assert(is_digit(b.last()));
        lemma_digits_value_prefix_le(s, j, k - 1);
    }
}

/// The spec digit sequence of a token: what follows the sign, if one is
/// there.
pub open spec fn digits_of(s: Seq<char>, start: int) -> Seq<char> {
    if start == 1 {
        s.skip(1)
    } else {
        s
    }
}

/// A token whose digit run already exceeds the representable magnitude
/// parses to `None`, whatever follows the scanned prefix.
proof fn lemma_int_reject_overflow(s: Seq<char>, start: int, kk: int, neg: bool)
    requires
        0 <= start <= 1,
        start == 1 ==> s.len() >= 2 && (s[0] == '+' || s[0] == '-'),
        start == 0 ==> !(s.len() >= 1 && (s[0] == '+' || s[0] == '-')),
        neg <==> (s.len() >= 1 && s[0] == '-'),
        0 <= kk <= digits_of(s, start).len(),
        all_digits(digits_of(s, start).subrange(0, kk)),
        digits_value(digits_of(s, start).subrange(0, kk)) > (if neg {
            170141183460469231731687303715884105728int
        } else {
            170141183460469231731687303715884105727int
        }),
    ensures
        parse_int_v(s) is None,
{
    let digits = digits_of(s, start);
    if all_digits(digits) {
        assert(digits.subrange(0, digits.len() as int) =~= digits);
        lemma_digits_value_prefix_le(digits, kk, digits.len() as int);
    } else {
        if start == 1 {
            assert(!is_digit(s[0]));
            assert(!all_digits(s));
        }
    }
}

/// The digit value of a digit character.
fn digit_of(c: char) -> (r: u8)
    requires
        is_digit(c),
    ensures
        r as int == digit_val(c),
        r < 10,
{
    match c {
        '0' => 0,
        '1' => 1,
        '2' => 2,
        '3' => 3,
        '4' => 4,
        '5' => 5,
        '6' => 6,
        '7' => 7,
        '8' => 8,
        _ => 9,
    }
}

/// The character for a digit value.
fn char_of_digit(d: u128) -> (r: char)
    requires
        d < 10,
    ensures
        r == digit_char(d as int),
{
    match d {
        0u128 => '0',
        1u128 => '1',
        2u128 => '2',
        3u128 => '3',
        4u128 => '4',
        5u128 => '5',
        6u128 => '6',
        7u128 => '7',
        8u128 => '8',
        _ => '9',
    }
}

/// Parses a token as a signed 128-bit decimal integer: an optional sign,
/// then at least one digit, and the value must fit.
#[verifier::loop_isolation(false)]
pub fn parse_int(s: &str) -> (r: Option<i128>)
    ensures
        r == parse_int_v(s@),
{
    let n = s.unicode_len();
    if n == 0 {
        return None;
    }
    let c0 = s.get_char(0);
    let neg = c0 == '-';
    let start: usize = if c0 == '-' || c0 == '+' {
        1
    } else {
        0
    };
    if start >= n {
        return None;
    }
    let ghost digits = if start == 1 {
        s@.skip(1)
    } else {
        s@
    };
    let limit: u128 = if neg {
        170141183460469231731687303715884105728
    } else {
        170141183460469231731687303715884105727
    };
    let mut acc: u128 = 0;
    let mut k = start;
    proof {
        assert(digits.subrange(0, 0) =~= Seq::<char>::empty());
    }
    while k < n
        invariant
            start <= k <= n,
            all_digits(digits.subrange(0, k - start)),
            acc <= limit,
            acc as int == digits_value(digits.subrange(0, k - start)),
        decreases n - k,
    {
        let c = s.get_char(k);
        if !('0' <= c && c <= '9') {
            proof {
                assert(digits[k - start] == s@[k as int]);
                assert(!is_digit(digits[k - start]));
                if start == 1 {
                    assert(!is_digit(s@[0]));
                    assert(!all_digits(s@));
                } else {
                    assert(!all_digits(s@));
                }
            }
            return None;
        }
        let d = digit_of(c);
        proof {
            assert(digits.subrange(0, k - start + 1).drop_last() =~= digits.subrange(
                0,
                k - start,
            ));
            assert(digits.subrange(0, k - start + 1).last() == digits[k - start]);
            assert(digits[k - start] == s@[k as int]);
            assert(all_digits(digits.subrange(0, k - start + 1)));
        }
        let next = match acc.checked_mul(10) {
            Some(a) => a.checked_add(d as u128),
            None => None,
        };
        let ok = match next {
            Some(x) => x <= limit,
            None => false,
        };
        if !ok {
            proof {
                assert(digits_value(digits.subrange(0, k - start + 1)) > limit);
                lemma_int_reject_overflow(s@, start as int, k - start + 1, neg);
            }
            return None;
        }
        acc = match next {
            Some(x) => x,
            None => 0,
        };
        k = k + 1;
    }
    proof {
        assert(digits.subrange(0, n - start) =~= digits);
    }
    if neg {
        if acc == 170141183460469231731687303715884105728 {
            Some(i128::MIN)
        } else {
            Some(-(acc as i128))
        }
    } else {
        Some(acc as i128)
    }
}

/// The decimal text of a non-negative value.
pub open spec fn nat_seq(v: int) -> Seq<char>
    decreases v,
{
    if 0 <= v < 10 {
        seq![digit_char(v)]
    } else if v >= 10 {
        nat_seq(v / 10).push(digit_char(v % 10))
    } else {
        seq!['0']
    }
}

/// The decimal text of a signed value: a minus sign for negative values,
/// then the digits of the magnitude.
pub open spec fn int_seq(v: int) -> Seq<char> {
    if v < 0 {
        seq!['-'] + nat_seq(-v)
    } else {
        nat_seq(v)
    }
}

/// Appends the decimal digits of `v` to `out`.
fn push_u128_digits(out: &mut String, v: u128)
    ensures
        final(out)@ == old(out)@ + nat_seq(v as int),
    decreases v,
{
    if v < 10 {
        push_char(out, char_of_digit(v));
        proof {
            assert(old(out)@.push(digit_char(v as int)) =~= old(out)@ + nat_seq(v as int));
        }
    } else {
        push_u128_digits(out, v / 10);
        push_char(out, char_of_digit(v % 10));
        proof {
            assert((old(out)@ + nat_seq((v / 10) as int)).push(digit_char((v % 10) as int)) =~= old(
                out,
            )@ + nat_seq(v as int));
        }
    }
}

/// Appends the decimal text of `v` to `out`.
pub fn push_i128(out: &mut String, v: i128)
    ensures
        final(out)@ == old(out)@ + int_seq(v as int),
{
    if v < 0 {
        push_char(out, '-');
        let mag: u128 = if v == i128::MIN {
            170141183460469231731687303715884105728
        } else {
            (-v) as u128
        };
        push_u128_digits(out, mag);
        proof {
            assert(old(out)@.push('-') + nat_seq(mag as int) =~= old(out)@ + int_seq(v as int));
        }
    } else {
        push_u128_digits(out, v as u128);
    }
}

} // verus!
