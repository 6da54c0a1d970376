//! uevent descriptor reading.
//!
//! A uevent descriptor is newline-separated `KEY=VALUE` text. The one key
//! consulted is `DEVNAME`: every line beginning with that key contributes
//! the text after its last `=` (or the whole line when it has none), and
//! the contributions are concatenated.

use vstd::prelude::*;
use vstd::string::StrSliceExecFns;
use vstd::string::StringExecFns;

verus! {

/// The characters of the `DEVNAME` key.
pub open spec fn devname_key() -> Seq<char> {
    seq!['D', 'E', 'V', 'N', 'A', 'M', 'E']
}

/// The text after the last `=` of `line`; the whole line when it has none.
pub open spec fn tail_after_eq(line: Seq<char>) -> Seq<char>
    decreases line.len(),
{
    if line.len() == 0 {
        Seq::empty()
    } else if line.last() == '=' {
        Seq::empty()
    } else {
        tail_after_eq(line.drop_last()).push(line.last())
    }
}

/// What one line contributes to the extracted device name.
pub open spec fn line_part(line: Seq<char>) -> Seq<char> {
    if line.len() >= 7 && line.subrange(0, 7) == devname_key() {
        tail_after_eq(line)
    } else {
        Seq::empty()
    }
}

/// The length of the first line of `s`: the index of the first newline, or
/// the whole length when there is none.
pub open spec fn first_line_len(s: Seq<char>) -> nat
    decreases s.len(),
{
    if s.len() == 0 {
        0
    } else if s[0] == '\n' {
        0
    } else {
        (first_line_len(s.subrange(1, s.len() as int)) + 1) as nat
    }
}

/// The device name a uevent descriptor yields: the concatenated
/// contributions of its lines.
pub open spec fn uevent_extract(s: Seq<char>) -> Seq<char>
    decreases s.len(),
{
    if s.len() == 0 {
        Seq::empty()
    } else {
        let l = first_line_len(s);
        if l >= s.len() {
            line_part(s)
        } else {
            line_part(s.subrange(0, l as int)) + uevent_extract(
                s.subrange(l + 1 as int, s.len() as int),
            )
        }
    }
}

/// `first_line_len` is the position of the first newline, or the length.
proof fn lemma_first_line_len_at(s: Seq<char>, i: int)
    requires
        0 <= i <= s.len(),
        forall|j: int| 0 <= j < i ==> s[j] != '\n',
        i == s.len() || s[i] == '\n',
    ensures
        first_line_len(s) == i,
    decreases i,
{
    if i == 0 {
    } else {
        let t = s.subrange(1, s.len() as int);
        assert forall|j: int| 0 <= j < i - 1 implies t[j] != '\n' by {
            assert(t[j] == s[j + 1]);
        }
        if i - 1 < t.len() {
            assert(t[i - 1] == s[i]);
        }
        lemma_first_line_len_at(t, i - 1);
    }
}

/// When the suffix of `line` from `k` on holds no `=` and `k` sits just
/// after an `=` (or at the front), the tail after the last `=` is exactly
/// that suffix.
proof fn lemma_tail_after_eq(line: Seq<char>, k: int)
    requires
        0 <= k <= line.len(),
        forall|j: int| k <= j < line.len() ==> line[j] != '=',
        k == 0 || line[k - 1] == '=',
    ensures
        tail_after_eq(line) =~= line.subrange(k, line.len() as int),
    decreases line.len(),
{
    if line.len() == 0 {
    } else if line.len() == k {
    } else {
        assert(line.last() != '=');
        lemma_tail_after_eq(line.drop_last(), k);
        assert(line.drop_last().subrange(k, line.len() - 1) =~= line.subrange(k, line.len() - 1));
        assert(tail_after_eq(line) =~= line.subrange(k, line.len() - 1).push(line.last()));
    }
}

/// Append to `out` what the line `s[start..end]` contributes.
fn append_line_part(out: &mut String, s: &str, start: usize, end: usize)
    requires
        start <= end <= s@.len(),
    ensures
        final(out)@ == old(out)@ + line_part(s@.subrange(start as int, end as int)),
{
    let ghost line = s@.subrange(start as int, end as int);
    proof {
        assert(line.len() == end - start);
    }
    if end - start >= 7 {
        let named = s.get_char(start) == 'D' && s.get_char(start + 1) == 'E' && s.get_char(
            start + 2,
        ) == 'V' && s.get_char(start + 3) == 'N' && s.get_char(start + 4) == 'A' && s.get_char(
            start + 5,
        ) == 'M' && s.get_char(start + 6) == 'E';
        proof {
            assert forall|j: int| 0 <= j < 7 implies line.subrange(0, 7)[j] == s@[start + j] by {}
        }
        if named {
            proof {
                assert(line.subrange(0, 7) =~= devname_key());
            }
            let mut k: usize = end;
            while k > start && s.get_char(k - 1) != '='
                invariant
                    start <= k <= end <= s@.len(),
                    forall|j: int| k <= j < end ==> s@[j] != '=',
                decreases k,
            {
                k = k - 1;
            }
            proof {
                assert forall|j: int| k - start <= j < line.len() implies line[j] != '=' by {
                    assert(line[j] == s@[start + j]);
                }
                if k > start {
                    assert(line[k - start - 1] == s@[k - 1]);
                }
                lemma_tail_after_eq(line, k - start);
                assert(s@.subrange(k as int, end as int) =~= line.subrange(
                    k - start,
                    line.len() as int,
                ));
            }
            let piece = s.substring_char(k, end);
            out.append(piece);
        } else {
            proof {
                if line.subrange(0, 7) == devname_key() {
                    assert(line.subrange(0, 7)[0] == 'D');
                    assert(line.subrange(0, 7)[1] == 'E');
                    assert(line.subrange(0, 7)[2] == 'V');
                    assert(line.subrange(0, 7)[3] == 'N');
                    assert(line.subrange(0, 7)[4] == 'A');
                    assert(line.subrange(0, 7)[5] == 'M');
                    assert(line.subrange(0, 7)[6] == 'E');
                    assert(false);
                }
                assert(out@ + line_part(line) =~= out@);
            }
        }
    } else {
        proof {
            assert(out@ + line_part(line) =~= out@);
        }
    }
}

/// Extract the device name a uevent descriptor points at: the value of its
/// `DEVNAME` line. The result is always present; a descriptor without the
/// key yields the empty name.
pub fn get_uevent_device(file_data: String) -> (r: Option<String>)
    ensures
        r matches Some(d) && d@ == uevent_extract(file_data@),
{
    let s = file_data.as_str();
    let n = s.unicode_len();
    let mut out = String::new();
    proof {
        assert(s@.subrange(0, n as int) =~= s@);
        assert(out@ + uevent_extract(s@) =~= uevent_extract(s@));
    }
    let mut line_start: usize = 0;
    let mut i: usize = 0;
    while i < n
        invariant
            line_start <= i <= n,
            n == s@.len(),
            forall|j: int| line_start <= j < i ==> s@[j] != '\n',
            uevent_extract(s@) == out@ + uevent_extract(s@.subrange(line_start as int, n as int)),
        decreases n - i,
    {
        if s.get_char(i) == '\n' {
            let ghost rem = s@.subrange(line_start as int, n as int);
            proof {
                assert forall|j: int| 0 <= j < i - line_start implies rem[j] != '\n' by {
                    assert(rem[j] == s@[line_start + j]);
                }
                assert(rem[i - line_start] == s@[i as int]);
                lemma_first_line_len_at(rem, i - line_start);
                assert(rem.subrange(0, i - line_start) =~= s@.subrange(
                    line_start as int,
                    i as int,
                ));
                assert(rem.subrange(i - line_start + 1, rem.len() as int) =~= s@.subrange(
                    i + 1,
                    n as int,
                ));
            }
            append_line_part(&mut out, s, line_start, i);
            line_start = i + 1;
        }
        i = i + 1;
    }
    let ghost rem = s@.subrange(line_start as int, n as int);
    proof {
        assert forall|j: int| 0 <= j < rem.len() implies rem[j] != '\n' by {
            assert(rem[j] == s@[line_start + j]);
        }
        if rem.len() > 0 {
            lemma_first_line_len_at(rem, rem.len() as int);
        }
    }
    append_line_part(&mut out, s, line_start, n);
    proof {
        if rem.len() == 0 {
            assert(out@ + line_part(rem) =~= out@);
        }
    }
    Some(out)
}

} // verus!
