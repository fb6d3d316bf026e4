//! Decimal notation of signed integers.

use vstd::prelude::*;

verus! {

/// Whether every character of `s` is a decimal digit.
pub open spec fn all_digits(s: Seq<char>) -> bool {
    forall|i: int| 0 <= i < s.len() ==> '0' <= #[trigger] s[i] <= '9'
}

/// The number that a sequence of decimal digits denotes.
pub open spec fn digits_value(s: Seq<char>) -> nat
    decreases s.len(),
{
    if s.len() == 0 {
        0
    } else {
        digits_value(s.drop_last()) * 10 + ((s.last() as u32 - '0' as u32) as nat)
    }
}

/// The integer that `s` denotes: an optional sign, then one or more decimal
/// digits and nothing else, with a value that an `i64` can hold.
pub open spec fn parsed_integer(s: Seq<char>) -> Option<i64> {
    let signed = s.len() > 0 && (s[0] == '-' || s[0] == '+');
    let digits = if signed {
        s.drop_first()
    } else {
        s
    };
    let value = if signed && s[0] == '-' {
        -(digits_value(digits) as int)
    } else {
        digits_value(digits) as int
    };
    if digits.len() == 0 || !all_digits(digits) || value < i64::MIN || value > i64::MAX {
        None
    } else {
        Some(value as i64)
    }
}

proof fn lemma_digits_value_grows(s: Seq<char>, k: int)
    requires
        0 <= k <= s.len(),
    ensures
        digits_value(s.take(k)) <= digits_value(s),
    decreases s.len() - k,
{
    if k == s.len() {
        assert(s.take(k) == s);
    } else {
        lemma_digits_value_grows(s, k + 1);
        assert(s.take(k + 1).drop_last() == s.take(k));
    }
}

/// Reads a signed decimal integer.
pub fn parse_integer(text: &Vec<char>) -> (r: Option<i64>)
    ensures
        r == parsed_integer(text@),
{
    let n = text.len();
    if n == 0 {
        return None;
    }
    let negative = text[0] == '-';
    let start: usize = if text[0] == '-' || text[0] == '+' {
        1
    } else {
        0
    };
    if start == n {
        return None;
    }
    let ghost digits = text@.skip(start as int);
    assert(digits == if start == 1 {
        text@.drop_first()
    } else {
        text@
    });
    let limit: u64 = 9223372036854775808;
    let mut value: u64 = 0;
    let mut overflow = false;
    let mut i: usize = start;
    while i < n
        invariant
            n == text.len(),
            start <= i <= n,
            digits == text@.skip(start as int),
            digits == (if start == 1 {
                text@.drop_first()
            } else {
                text@
            }),
            start == 1 <==> (text[0] == '-' || text[0] == '+'),
            negative == (text[0] == '-'),
            limit == 9223372036854775808,
            all_digits(digits.take(i - start)),
            !overflow ==> value == digits_value(digits.take(i - start)) && value <= limit,
            overflow ==> digits_value(digits.take(i - start)) > limit,
        decreases n - i,
    {
        let c = text[i];
        let ghost done = digits.take(i - start);
        let ghost next = digits.take(i - start + 1);
        proof {
            assert(next.drop_last() == done);
            assert(next.last() == c);
        }
        if !('0' <= c && c <= '9') {
            assert(!('0' <= digits[i - start] <= '9'));
            return None;
        }
        assert(all_digits(next)) by {
            assert forall|j: int| 0 <= j < next.len() implies '0' <= #[trigger] next[j] <= '9' by {
                if j < done.len() {
                    assert(done[j] == next[j]);
                }
            }
        }
        let d: u64 = (c as u32 - '0' as u32) as u64;
        if !overflow {
            if value > (limit - d) / 10 {
                overflow = true;
                assert(value * 10 + d > limit) by (nonlinear_arith)
                    requires
                        value > (limit - d) / 10,
                        d <= 9,
                        limit == 9223372036854775808,
                ;
            } else {
                assert(value * 10 + d <= limit) by (nonlinear_arith)
                    requires
                        value <= (limit - d) / 10,
                        d <= 9,
                        limit == 9223372036854775808,
                ;
                value = value * 10 + d;
            }
        } else {
            assert(digits_value(next) >= digits_value(done));
        }
        i += 1;
    }
    assert(digits.take(n - start) == digits);
    if overflow {
        return None;
    }
    if negative {
        if value == limit {
            Some(i64::MIN)
        } else {
            Some(-(value as i64))
        }
    } else {
        if value == limit {
            None
        } else {
            Some(value as i64)
        }
    }
}

} // verus!
