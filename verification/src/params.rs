//! Run parameters and the selection store's matching logic.
//!
//! The store itself is a single line of text — the chosen keyboard's
//! display name — kept in the user's configuration file. Loading a
//! selection means finding the first enumerated keyboard whose name equals
//! the stored text exactly; saving means validating a numeric index against
//! the enumerated list.

use vstd::prelude::*;
use vstd::string::StrSliceExecFns;
use crate::classify::trim_str;
use crate::classify::trimmed;
use crate::classify::Keyboard;
use crate::numbers::decimal_value;
use crate::numbers::parse_i32;
use crate::numbers::valid_decimal_i32;

verus! {

/// The run parameters handed in from the command line: either enter
/// configuration mode, or monitor with an idle time and the two touchpad
/// commands.
pub struct Params {
    pub do_config: bool,
    pub idle: Option<i32>,
    pub enable: Option<String>,
    pub disable: Option<String>,
}

/// The index of the first keyboard in `kbs` whose name is `name`.
pub open spec fn first_match(kbs: Seq<Keyboard>, name: Seq<char>) -> Option<int>
    decreases kbs.len(),
{
    if kbs.len() == 0 {
        None
    } else if kbs[0].name@ == name {
        Some(0int)
    } else {
        match first_match(kbs.subrange(1, kbs.len() as int), name) {
            Some(j) => Some(j + 1),
            None => None,
        }
    }
}

/// `first_match` finds `i` when nothing before `i` matches and `i` does
/// (or nothing at all when no entry matches).
proof fn lemma_first_match_at(kbs: Seq<Keyboard>, name: Seq<char>, i: int)
    requires
        0 <= i <= kbs.len(),
        forall|j: int| 0 <= j < i ==> kbs[j].name@ != name,
        i == kbs.len() || kbs[i].name@ == name,
    ensures
        i == kbs.len() ==> first_match(kbs, name) is None,
        i < kbs.len() ==> first_match(kbs, name) == Some(i),
    decreases i + 1,
{
    if kbs.len() == 0 {
    } else if i == 0 {
    } else {
        let tail = kbs.subrange(1, kbs.len() as int);
        assert forall|j: int| 0 <= j < i - 1 implies tail[j].name@ != name by {
            assert(tail[j] == kbs[j + 1]);
        }
        if i - 1 < tail.len() {
            assert(tail[i - 1] == kbs[i]);
        }
        lemma_first_match_at(tail, name, i - 1);
    }
}

/// What a match means: nothing found exactly when no entry carries the
/// name; a found index carries the name and is the first to do so.
pub proof fn lemma_first_match_props(kbs: Seq<Keyboard>, name: Seq<char>)
    ensures
        first_match(kbs, name) is None <==> (forall|j: int|
            0 <= j < kbs.len() ==> kbs[j].name@ != name),
        first_match(kbs, name) matches Some(i) ==> 0 <= i < kbs.len() && kbs[i].name@ == name && (
        forall|j: int| 0 <= j < i ==> kbs[j].name@ != name),
    decreases kbs.len(),
{
    if kbs.len() == 0 {
    } else if kbs[0].name@ == name {
        assert(first_match(kbs, name) == Some(0int));
    } else {
        let tail = kbs.subrange(1, kbs.len() as int);
        lemma_first_match_props(tail, name);
        assert forall|j: int| 1 <= j < kbs.len() implies kbs[j] == tail[j - 1] by {}
        match first_match(tail, name) {
            Some(ti) => {
                assert(first_match(kbs, name) == Some(ti + 1));
                assert(tail[ti].name@ == name);
                assert(kbs[ti + 1].name@ == name);
                assert forall|j: int| 0 <= j < ti + 1 implies kbs[j].name@ != name by {
                    if j > 0 {
                        assert(tail[j - 1].name@ != name);
                    }
                }
            },
            None => {
                assert(first_match(kbs, name) is None);
                assert forall|j: int| 0 <= j < kbs.len() implies kbs[j].name@ != name by {
                    if j > 0 {
                        assert(tail[j - 1].name@ != name);
                    }
                }
            },
        }
    }
}

/// Saving a keyboard's name and matching it back against the same list
/// finds a keyboard again, no later in the list and with the same name.
pub proof fn lemma_selection_round_trip(kbs: Seq<Keyboard>, i: int)
    requires
        0 <= i < kbs.len(),
    ensures
        first_match(kbs, kbs[i].name@) matches Some(j) && 0 <= j <= i && kbs[j].name@
            == kbs[i].name@,
{
    lemma_first_match_props(kbs, kbs[i].name@);
    match first_match(kbs, kbs[i].name@) {
        Some(j) => {
            if j > i {
                assert(kbs[i].name@ != kbs[i].name@);
            }
        },
        None => {
            assert(kbs[i].name@ != kbs[i].name@);
        },
    }
}

/// Character-for-character string equality.
fn str_eq(a: &str, b: &str) -> (r: bool)
    ensures
        r == (a@ == b@),
{
    let na = a.unicode_len();
    let nb = b.unicode_len();
    if na != nb {
        return false;
    }
    let mut i: usize = 0;
    while i < na
        invariant
            i <= na,
            na == a@.len(),
            na == b@.len(),
            forall|j: int| 0 <= j < i ==> a@[j] == b@[j],
        decreases na - i,
    {
        if a.get_char(i) != b.get_char(i) {
            return false;
        }
        i = i + 1;
    }
    proof {
        assert(a@ =~= b@);
    }
    true
}

/// Find the first keyboard whose name equals the stored selection exactly;
/// nothing when the configured keyboard is no longer in the list.
pub fn find_by_name(keyboards: &Vec<Keyboard>, name: &str) -> (r: Option<usize>)
    ensures
        r is Some <==> first_match(keyboards@, name@) is Some,
        r matches Some(ix) ==> Some(ix as int) == first_match(keyboards@, name@) && ix
            < keyboards@.len() && keyboards@[ix as int].name@ == name@,
{
    let mut i: usize = 0;
    while i < keyboards.len()
        invariant
            i <= keyboards@.len(),
            forall|j: int| 0 <= j < i ==> keyboards@[j].name@ != name@,
        decreases keyboards@.len() - i,
    {
        if str_eq(keyboards[i].name.as_str(), name) {
            proof {
                lemma_first_match_at(keyboards@, name@, i as int);
            }
            return Some(i);
        }
        i = i + 1;
    }
    proof {
        lemma_first_match_at(keyboards@, name@, keyboards@.len() as int);
    }
    None
}

/// Validate an interactively entered selection: the trimmed input must be
/// a decimal integer naming an index within the enumerated list.
pub fn parse_selection(input: &str, count: usize) -> (r: Option<usize>)
    ensures
        r is Some <==> (valid_decimal_i32(trimmed(input@)) && 0 <= decimal_value(trimmed(input@))
            < count),
        r matches Some(ix) ==> ix as int == decimal_value(trimmed(input@)),
{
    let t = trim_str(input);
    match parse_i32(t.as_str()) {
        Some(v) => {
            if v >= 0 && (v as usize) < count {
                Some(v as usize)
            } else {
                None
            }
        },
        None => None,
    }
}

} // verus!
