//! Decimal integer parsing for selection indices and command-line values.

use vstd::prelude::*;
use vstd::string::StrSliceExecFns;

verus! {

/// ASCII digits.
pub open spec fn is_digit(c: char) -> bool {
    48 <= c as u32 && c as u32 <= 57
}

/// The numeric value of a decimal digit; zero for any other character.
pub open spec fn dec_digit_value(c: char) -> int {
    if is_digit(c) {
        c as u32 - 48
    } else {
        0
    }
}

pub open spec fn all_digits(s: Seq<char>) -> bool {
    forall|i: int| 0 <= i < s.len() ==> is_digit(#[trigger] s[i])
}

/// The unbounded value of a digit sequence read in base 10.
pub open spec fn dec_value(s: Seq<char>) -> int
    decreases s.len(),
{
    if s.len() == 0 {
        0
    } else {
        dec_value(s.drop_last()) * 10 + dec_digit_value(s.last())
    }
}

/// The digits of a decimal literal: everything after an optional sign.
pub open spec fn signed_body(s: Seq<char>) -> Seq<char> {
    if s.len() > 0 && (s[0] == '+' || s[0] == '-') {
        s.subrange(1, s.len() as int)
    } else {
        s
    }
}

pub open spec fn is_negative(s: Seq<char>) -> bool {
    s.len() > 0 && s[0] == '-'
}

/// The signed value a decimal literal denotes, ignoring range limits.
pub open spec fn decimal_value(s: Seq<char>) -> int {
    if is_negative(s) {
        -dec_value(signed_body(s))
    } else {
        dec_value(signed_body(s))
    }
}

/// Whether `s` is a decimal literal for a 32-bit signed integer: an
/// optional sign, one or more digits, and a value in range.
pub open spec fn valid_decimal_i32(s: Seq<char>) -> bool {
    &&& signed_body(s).len() > 0
    &&& all_digits(signed_body(s))
    &&& i32::MIN <= decimal_value(s) <= i32::MAX
}

proof fn lemma_dec_value_nonneg(s: Seq<char>)
    ensures
        dec_value(s) >= 0,
    decreases s.len(),
{
    if s.len() > 0 {
        lemma_dec_value_nonneg(s.drop_last());
    }
}

/// A prefix of a digit sequence is worth no more than the whole.
proof fn lemma_dec_value_prefix_le(s: Seq<char>, i: int)
    requires
        0 <= i <= s.len(),
    ensures
        dec_value(s.subrange(0, i)) <= dec_value(s),
    decreases s.len() - i,
{
    if i == s.len() {
        assert(s.subrange(0, i) =~= s);
    } else {
        assert(s.subrange(0, i + 1).drop_last() =~= s.subrange(0, i));
        assert(s.subrange(0, i + 1).last() == s[i]);
        lemma_dec_value_nonneg(s.subrange(0, i));
        lemma_dec_value_prefix_le(s, i + 1);
    }
}

fn dec_digit(c: char) -> (r: Option<u64>)
    ensures
        r is Some <==> is_digit(c),
        r matches Some(v) ==> v == dec_digit_value(c),
{
    let u = c as u32;
    if 48 <= u && u <= 57 {
        Some((u - 48) as u64)
    } else {
        None
    }
}

/// Parse a decimal literal as a 32-bit signed integer; nothing when the
/// text is not such a literal or its value is out of range.
pub fn parse_i32(s: &str) -> (r: Option<i32>)
    ensures
        r is Some <==> valid_decimal_i32(s@),
        r matches Some(v) ==> v as int == decimal_value(s@),
{
    let n = s.unicode_len();
    let mut start: usize = 0;
    let mut neg = false;
    if n > 0 {
        let c0 = s.get_char(0);
        if c0 == '+' {
            start = 1;
        } else if c0 == '-' {
            neg = true;
            start = 1;
        }
    }
    let ghost body = s@.subrange(start as int, n as int);
    proof {
        assert(body =~= signed_body(s@));
    }
    if start >= n {
        return None;
    }
    let limit: u64 = if neg {
        2147483648
    } else {
        2147483647
    };
    let mut acc: u64 = 0;
    let mut i: usize = start;
    while i < n
        invariant
            start <= i <= n,
            n == s@.len(),
            start < n,
            body == s@.subrange(start as int, n as int),
            body == signed_body(s@),
            neg == is_negative(s@),
            limit == if neg {
                2147483648u64
            } else {
                2147483647u64
            },
            forall|j: int| start <= j < i ==> is_digit(#[trigger] s@[j]),
            acc == dec_value(s@.subrange(start as int, i as int)),
            acc <= limit,
        decreases n - i,
    {
        let c = s.get_char(i);
        proof {
            assert(body[i - start] == s@[i as int]);
            assert(s@.subrange(start as int, i + 1).drop_last() =~= s@.subrange(
                start as int,
                i as int,
            ));
            assert(s@.subrange(start as int, i + 1).last() == s@[i as int]);
            assert(s@.subrange(start as int, i + 1) =~= body.subrange(0, i + 1 - start));
        }
        match dec_digit(c) {
            Some(v) => {
                let next = acc * 10 + v;
                if next > limit {
                    proof {
                        lemma_dec_value_prefix_le(body, i + 1 - start);
                    }
                    return None;
                }
                acc = next;
                i = i + 1;
            },
            None => {
                proof {
                    assert(!is_digit(body[i - start]));
                }
                return None;
            },
        }
    }
    proof {
        assert(s@.subrange(start as int, n as int) =~= body);
        assert forall|j: int| 0 <= j < body.len() implies is_digit(#[trigger] body[j]) by {
            assert(body[j] == s@[start + j]);
        }
    }
    if neg {
        if acc == 2147483648 {
            Some(i32::MIN)
        } else {
            Some(0i32 - (acc as i32))
        }
    } else {
        Some(acc as i32)
    }
}

/// Check that a command-line value is a 32-bit decimal integer.
pub fn is_integer(num: &str) -> (r: Result<(), String>)
    ensures
        r is Ok <==> valid_decimal_i32(num@),
        r matches Err(m) ==> m@ == "An integer is required."@,
{
    match parse_i32(num) {
        Some(_) => Ok(()),
        None => Err("An integer is required.".to_owned()),
    }
}

} // verus!
