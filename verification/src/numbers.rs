//! Parsing of signed decimal integer literals, as they appear as the text
//! content of metric value nodes.

use crate::result::SimpleError;
use vstd::prelude::*;

verus! {

/// Is `c` a decimal digit?
pub open spec fn is_digit(c: char) -> bool {
    '0' <= c && c <= '9'
}

/// The numeric value of the digit `c`.
pub open spec fn digit_value(c: char) -> int {
    c as int - '0' as int
}

/// Are all characters of `s` decimal digits?
pub open spec fn all_digits(s: Seq<char>) -> bool {
    forall|i: int| 0 <= i < s.len() ==> is_digit(#[trigger] s[i])
}

/// The value of the digit string `s`, most significant digit first.
pub open spec fn digits_value(s: Seq<char>) -> int
    decreases s.len(),
{
    if s.len() == 0 {
        0
    } else {
        digits_value(s.drop_last()) * 10 + digit_value(s.last())
    }
}

/// Does `s` start with an explicit sign character?
pub open spec fn has_sign(s: Seq<char>) -> bool {
    s.len() > 0 && (s[0] == '-' || s[0] == '+')
}

/// The digits of `s`, with a leading sign removed.
pub open spec fn digits_of(s: Seq<char>) -> Seq<char> {
    if has_sign(s) {
        s.drop_first()
    } else {
        s
    }
}

/// Is `s` a well-formed signed decimal literal: an optional sign followed
/// by one or more digits, and nothing else?
pub open spec fn is_int_literal(s: Seq<char>) -> bool {
    digits_of(s).len() > 0 && all_digits(digits_of(s))
}

/// The mathematical value of the literal `s`.
pub open spec fn int_literal_value(s: Seq<char>) -> int {
    if s.len() > 0 && s[0] == '-' {
        -digits_value(digits_of(s))
    } else {
        digits_value(digits_of(s))
    }
}

/// Is `s` a literal whose value fits in an `i32`?
pub open spec fn is_i32_literal(s: Seq<char>) -> bool {
    is_int_literal(s) && i32::MIN <= int_literal_value(s) <= i32::MAX
}

/// A digit string's value is never negative.
pub proof fn lemma_digits_value_nonneg(s: Seq<char>)
    requires
        all_digits(s),
    ensures
        digits_value(s) >= 0,
    decreases s.len(),
{
    if s.len() > 0 {
        assert(forall|i: int|
            0 <= i < s.drop_last().len() ==> is_digit(#[trigger] s.drop_last()[i]));
        lemma_digits_value_nonneg(s.drop_last());
    }
}

/// Reading one more digit multiplies the value so far by ten and adds it.
pub proof fn lemma_digits_value_step(s: Seq<char>, i: int)
    requires
        0 <= i < s.len(),
    ensures
        digits_value(s.take(i + 1)) == digits_value(s.take(i)) * 10 + digit_value(s[i]),
{
    assert(s.take(i + 1).drop_last() =~= s.take(i));
    assert(s.take(i + 1).last() == s[i]);
}

/// A digit string is worth at least as much as any of its prefixes.
pub proof fn lemma_digits_value_prefix_le(s: Seq<char>, i: int)
    requires
        all_digits(s),
        0 <= i <= s.len(),
    ensures
        digits_value(s.take(i)) <= digits_value(s),
    decreases s.len() - i,
{
    if i == s.len() {
        assert(s.take(i) =~= s);
    } else {
        lemma_digits_value_step(s, i);
        assert(forall|j: int| 0 <= j < s.take(i).len() ==> is_digit(#[trigger] s.take(i)[j]));
        lemma_digits_value_nonneg(s.take(i));
        lemma_digits_value_prefix_le(s, i + 1);
    }
}

/// Parses a signed decimal literal into an `i32`. A malformed or
/// out-of-range literal is a fatal parse error, not a soft skip.
pub fn parse_i32(s: &str) -> (r: Result<i32, SimpleError>)
    ensures
        r is Ok <==> is_i32_literal(s@),
        r is Ok ==> r.unwrap() == int_literal_value(s@),
        r is Err ==> r.unwrap_err() is Parse,
{
    let len = s.unicode_len();
    if len == 0 {
        return Err(SimpleError::Parse("empty numeric literal".to_owned()));
    }
    let first = s.get_char(0);
    let negative = first == '-';
    let start: usize = if first == '-' || first == '+' {
        1
    } else {
        0
    };
    if start == len {
        return Err(SimpleError::Parse("sign without digits".to_owned()));
    }
    let ghost digits = digits_of(s@);
    proof {
        if start == 1 {
            assert(digits =~= s@.skip(1));
        } else {
            assert(digits =~= s@.skip(0));
        }
    }
    let mut i: usize = start;
    let mut magnitude: i64 = 0;
    while i < len
        invariant
            start <= i <= len,
            len == s@.len(),
            start == 0 || start == 1,
            start == 1 <==> has_sign(s@),
            digits == digits_of(s@),
            digits =~= s@.skip(start as int),
            forall|j: int|
                0 <= j < i - start ==> is_digit(#[trigger] digits[j]),
            magnitude == digits_value(digits.take(i - start)),
            0 <= magnitude <= 2147483648i64,
        decreases len - i,
    {
        let c = s.get_char(i);
        proof {
            assert(digits[i - start] == s@[i as int]);
        }
        if !('0' <= c && c <= '9') {
            proof {
                assert(!is_digit(digits[i - start]));
            }
            return Err(SimpleError::Parse("malformed numeric literal".to_owned()));
        }
        let d = (c as u32) - ('0' as u32);
        proof {
            lemma_digits_value_step(digits, i - start);
        }
        magnitude = magnitude * 10 + (d as i64);
        i += 1;
        if magnitude > 2147483648i64 {
            proof {
                if is_i32_literal(s@) {
                    lemma_digits_value_prefix_le(digits, i - start);
                }
            }
            return Err(SimpleError::Parse("numeric literal out of range".to_owned()));
        }
    }
    proof {
        assert(digits.take(len - start) =~= digits);
    }
    if negative {
        proof {
            lemma_digits_value_nonneg(digits);
        }
        Ok((-magnitude) as i32)
    } else if magnitude > 2147483647i64 {
        Err(SimpleError::Parse("numeric literal out of range".to_owned()))
    } else {
        Ok(magnitude as i32)
    }
}

} // verus!
