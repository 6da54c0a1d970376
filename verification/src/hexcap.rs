//! Capability descriptor parsing.
//!
//! A capability descriptor is a whitespace-separated list of hexadecimal
//! groups, most-significant group first. Only the last group — the
//! least-significant capability word — is consulted. Malformed text decodes
//! to zero, never to an error: a device whose descriptor cannot be read is
//! treated as having no capabilities at all.

use vstd::prelude::*;
use vstd::string::StrSliceExecFns;

verus! {

/// The whitespace characters recognised between hexadecimal groups.
pub open spec fn is_space(c: char) -> bool {
    c == ' ' || c == '\n' || c == '\t' || c == '\r' || c == '\u{b}' || c == '\u{c}'
}

/// Hexadecimal digits, upper or lower case.
pub open spec fn is_hex_digit(c: char) -> bool {
    (48 <= c as u32 && c as u32 <= 57) || (97 <= c as u32 && c as u32 <= 102) || (65 <= c as u32
        && c as u32 <= 70)
}

/// The numeric value of a hexadecimal digit; zero for any other character.
pub open spec fn hex_digit_value(c: char) -> int {
    if 48 <= c as u32 && c as u32 <= 57 {
        c as u32 - 48
    } else if 97 <= c as u32 && c as u32 <= 102 {
        c as u32 - 87
    } else if 65 <= c as u32 && c as u32 <= 70 {
        c as u32 - 55
    } else {
        0
    }
}

pub open spec fn all_hex(s: Seq<char>) -> bool {
    forall|i: int| 0 <= i < s.len() ==> is_hex_digit(#[trigger] s[i])
}

/// The unbounded value of a digit sequence read in base 16.
pub open spec fn hex_value(s: Seq<char>) -> int
    decreases s.len(),
{
    if s.len() == 0 {
        0
    } else {
        hex_value(s.drop_last()) * 16 + hex_digit_value(s.last())
    }
}

/// The maximal run of non-whitespace characters at the end of `s`.
pub open spec fn trailing_run(s: Seq<char>) -> Seq<char>
    decreases s.len(),
{
    if s.len() == 0 {
        Seq::empty()
    } else if is_space(s.last()) {
        Seq::empty()
    } else {
        trailing_run(s.drop_last()).push(s.last())
    }
}

/// The last whitespace-separated token of `s`; empty when `s` holds none.
pub open spec fn last_token(s: Seq<char>) -> Seq<char>
    decreases s.len(),
{
    if s.len() == 0 {
        Seq::empty()
    } else if is_space(s.last()) {
        last_token(s.drop_last())
    } else {
        trailing_run(s)
    }
}

/// The capability word a descriptor decodes to: the last token read as base
/// 16, or zero when there is no token, a non-hexadecimal character, or a
/// value beyond 64 bits.
pub open spec fn hex_cap_value(s: Seq<char>) -> u64 {
    let t = last_token(s);
    if t.len() > 0 && all_hex(t) && hex_value(t) <= u64::MAX as int {
        hex_value(t) as u64
    } else {
        0
    }
}

proof fn lemma_hex_value_nonneg(s: Seq<char>)
    ensures
        hex_value(s) >= 0,
    decreases s.len(),
{
    if s.len() > 0 {
        lemma_hex_value_nonneg(s.drop_last());
    }
}

/// Reading more digits never lowers the value: a prefix of a digit sequence
/// is worth no more than the whole.
proof fn lemma_hex_value_prefix_le(s: Seq<char>, i: int)
    requires
        0 <= i <= s.len(),
    ensures
        hex_value(s.subrange(0, i)) <= hex_value(s),
    decreases s.len() - i,
{
    if i == s.len() {
        assert(s.subrange(0, i) =~= s);
    } else {
        assert(s.subrange(0, i + 1).drop_last() =~= s.subrange(0, i));
        assert(s.subrange(0, i + 1).last() == s[i]);
        lemma_hex_value_nonneg(s.subrange(0, i));
        lemma_hex_value_prefix_le(s, i + 1);
    }
}

/// When everything from `start` on is non-whitespace and `start` sits just
/// after a whitespace character (or at the front), the trailing run is
/// exactly the suffix from `start`.
proof fn lemma_trailing_run_eq(s: Seq<char>, start: int)
    requires
        0 <= start <= s.len(),
        forall|j: int| start <= j < s.len() ==> !is_space(#[trigger] s[j]),
        start == 0 || is_space(s[start - 1]),
    ensures
        trailing_run(s) =~= s.subrange(start, s.len() as int),
    decreases s.len(),
{
    if s.len() == 0 {
    } else if s.len() == start {
    } else {
        assert(!is_space(s.last()));
        lemma_trailing_run_eq(s.drop_last(), start);
        assert(s.drop_last().subrange(start, s.len() - 1) =~= s.subrange(start, s.len() - 1));
        assert(trailing_run(s) =~= s.subrange(start, s.len() - 1).push(s.last()));
    }
}

fn space_char(c: char) -> (r: bool)
    ensures
        r == is_space(c),
{
    c == ' ' || c == '\n' || c == '\t' || c == '\r' || c == '\u{b}' || c == '\u{c}'
}

fn hex_digit(c: char) -> (r: Option<u64>)
    ensures
        r is Some <==> is_hex_digit(c),
        r matches Some(v) ==> v == hex_digit_value(c),
{
    let u = c as u32;
    if 48 <= u && u <= 57 {
        Some((u - 48) as u64)
    } else if 97 <= u && u <= 102 {
        Some((u - 87) as u64)
    } else if 65 <= u && u <= 70 {
        Some((u - 55) as u64)
    } else {
        None
    }
}

/// Decode a capability descriptor to its least-significant 64-bit word:
/// the last whitespace-separated token read as base 16, or zero when no
/// token exists or the token fails to parse.
pub fn convert_hex_string(hex: &str) -> (r: u64)
    ensures
        r == hex_cap_value(hex@),
{
    let n = hex.unicode_len();
    proof {
        assert(hex@.subrange(0, n as int) =~= hex@);
    }
    let mut end: usize = n;
    while end > 0 && space_char(hex.get_char(end - 1))
        invariant
            end <= n,
            n == hex@.len(),
            last_token(hex@) == last_token(hex@.subrange(0, end as int)),
        decreases end,
    {
        proof {
            assert(hex@.subrange(0, end as int).drop_last() =~= hex@.subrange(0, end - 1));
        }
        end = end - 1;
    }
    if end == 0 {
        proof {
            assert(hex@.subrange(0, 0) =~= Seq::<char>::empty());
        }
        return 0;
    }
    let mut start: usize = end;
    while start > 0 && !space_char(hex.get_char(start - 1))
        invariant
            start <= end <= n,
            n == hex@.len(),
            forall|j: int| start <= j < end ==> !is_space(#[trigger] hex@[j]),
        decreases start,
    {
        start = start - 1;
    }
    let ghost token = hex@.subrange(start as int, end as int);
    proof {
        assert(hex@.subrange(0, end as int).last() == hex@[end - 1]);
        assert(!is_space(hex@[end - 1]));
        lemma_trailing_run_eq(hex@.subrange(0, end as int), start as int);
        assert(hex@.subrange(0, end as int).subrange(start as int, end as int) =~= token);
        assert(last_token(hex@) == token);
        assert(token[end - 1 - start] == hex@[end - 1]);
    }
    let mut acc: u64 = 0;
    let mut i: usize = start;
    while i < end
        invariant
            start <= i <= end <= n,
            start < end,
            n == hex@.len(),
            token == hex@.subrange(start as int, end as int),
            last_token(hex@) == token,
            forall|j: int| start <= j < i ==> is_hex_digit(#[trigger] hex@[j]),
            acc == hex_value(hex@.subrange(start as int, i as int)),
        decreases end - i,
    {
        let c = hex.get_char(i);
        proof {
            assert(token[i - start] == hex@[i as int]);
            assert(hex@.subrange(start as int, i + 1).drop_last() =~= hex@.subrange(
                start as int,
                i as int,
            ));
            assert(hex@.subrange(start as int, i + 1).last() == hex@[i as int]);
            assert(hex@.subrange(start as int, i + 1) =~= token.subrange(0, i + 1 - start));
        }
        match hex_digit(c) {
            Some(v) => {
                let stepped = match acc.checked_mul(16) {
                    Some(m) => m.checked_add(v),
                    None => None,
                };
                match stepped {
                    Some(next) => {
                        acc = next;
                        i = i + 1;
                    },
                    None => {
                        proof {
                            lemma_hex_value_prefix_le(token, i + 1 - start);
                        }
                        return 0;
                    },
                }
            },
            None => {
                proof {
                    assert(!is_hex_digit(token[i - start]));
                }
                return 0;
            },
        }
    }
    proof {
        assert(hex@.subrange(start as int, end as int) =~= token);
        assert forall|j: int| 0 <= j < token.len() implies is_hex_digit(#[trigger] token[j]) by {
            assert(token[j] == hex@[start + j]);
        }
    }
    acc
}

} // verus!
