//! Device classification.
//!
//! A candidate input device passes when its event-type capability word
//! advertises both the synchronization and the key event classes and its key
//! capability word has every bit from 1 to 63 set — a coarse heuristic for
//! "can produce a broad range of key codes". A device that passes must
//! expose exactly one event subnode; its uevent descriptor names the
//! addressable device node.

use vstd::prelude::*;
use vstd::string::StrSliceExecFns;
use vstd::string::StringExecFns;
use crate::bits::bit_at;
use crate::bits::bits_set;
use crate::bits::lemma_bits_set_iff;
use crate::bits::mask_build;
use crate::bits::mask_of;
use crate::hexcap::convert_hex_string;
use crate::hexcap::hex_cap_value;
use crate::hexcap::is_space;
use crate::numbers::is_digit;
use crate::uevent::get_uevent_device;
use crate::uevent::uevent_extract;

verus! {

/// Bit position of the synchronization event class.
pub const EV_SYNC: u8 = 0;

/// Bit position of the key event class.
pub const EV_KEY: u8 = 1;

/// Every key bit from 1 to 63; bit 0 of the key bitset is reserved.
pub const KEYBOARD_KEYS_MASK: u64 = u64::MAX - 1;

/// A classified keyboard: its display name and the path of its addressable
/// device node.
#[derive(Debug)]
pub struct Keyboard {
    pub name: String,
    pub path: String,
}

impl Keyboard {
    pub fn new(name: String, path: String) -> (k: Keyboard)
        ensures
            k.name == name,
            k.path == path,
    {
        Keyboard { name, path }
    }
}

/// The event-type mask a keyboard must match: synchronization and key events.
pub open spec fn ev_mask() -> u64 {
    mask_of(seq![EV_SYNC, EV_KEY])
}

/// The event-type mask is the value 3: a device passes the event-type test
/// exactly when both bit 0 and bit 1 of its capability word are set.
pub proof fn lemma_ev_mask_value()
    ensures
        ev_mask() == 3,
{
    let s = seq![EV_SYNC, EV_KEY];
    assert(s.last() == EV_KEY);
    assert(s.drop_last() =~= seq![EV_SYNC]);
    assert(seq![EV_SYNC].last() == EV_SYNC);
    assert(seq![EV_SYNC].drop_last() =~= Seq::<u8>::empty());
    assert(mask_of(Seq::<u8>::empty()) == 0u64);
    assert(mask_of(seq![EV_SYNC]) == 0u64 | (1u64 << EV_SYNC));
    assert(mask_of(s) == mask_of(seq![EV_SYNC]) | (1u64 << EV_KEY));
    assert(0u64 | (1u64 << 0u8) == 1u64) by (bit_vector);
    assert(1u64 | (1u64 << 1u8) == 3u64) by (bit_vector);
}

/// The key mask holds exactly bits 1 through 63: bit 0 of the key bitset is
/// reserved and plays no part in the key-capability test.
proof fn lemma_key_mask_bits(i: u64)
    requires
        i < 64,
    ensures
        bit_at(KEYBOARD_KEYS_MASK, i) <==> 1 <= i,
{
    assert(i < 64 ==> (((0xFFFFFFFFFFFFFFFEu64 >> i) & 1u64 == 1u64) <==> 1 <= i))
        by (bit_vector);
}

/// A capability word passes the key test exactly when every bit from 1 to
/// 63 is set; bit 0 may be set or clear.
pub proof fn lemma_key_cap_meaning(v: u64)
    ensures
        (v & KEYBOARD_KEYS_MASK == KEYBOARD_KEYS_MASK) <==> (forall|i: u64|
            1 <= i < 64 ==> #[trigger] bit_at(v, i)),
{
    lemma_bits_set_iff(v, KEYBOARD_KEYS_MASK);
    if v & KEYBOARD_KEYS_MASK == KEYBOARD_KEYS_MASK {
        assert forall|i: u64| 1 <= i < 64 implies #[trigger] bit_at(v, i) by {
            lemma_key_mask_bits(i);
        }
    } else {
        if forall|i: u64| 1 <= i < 64 ==> #[trigger] bit_at(v, i) {
            assert forall|i: u64| i < 64 && #[trigger] bit_at(KEYBOARD_KEYS_MASK, i) implies bit_at(
                v,
                i,
            ) by {
                lemma_key_mask_bits(i);
            }
            assert(false);
        }
    }
}

/// Whether an event-type capability descriptor passes the keyboard test.
pub open spec fn ev_cap_ok(s: Seq<char>) -> bool {
    hex_cap_value(s) & ev_mask() == ev_mask()
}

/// Whether a key capability descriptor passes the keyboard test.
pub open spec fn key_cap_ok(s: Seq<char>) -> bool {
    hex_cap_value(s) & KEYBOARD_KEYS_MASK == KEYBOARD_KEYS_MASK
}

/// Event-type test: the device must advertise both the synchronization and
/// the key event classes.
pub fn keyboard_ev_cap_test(ev_cap: &str) -> (r: bool)
    ensures
        r == ev_cap_ok(ev_cap@),
{
    let ev_num = convert_hex_string(ev_cap);
    let mut positions: Vec<u8> = Vec::new();
    positions.push(EV_SYNC);
    positions.push(EV_KEY);
    proof {
        assert(positions@ =~= seq![EV_SYNC, EV_KEY]);
    }
    let mask = mask_build(positions.as_slice());
    bits_set(ev_num, mask)
}

/// Key-capability test: every key bit from 1 to 63 must be set.
pub fn keyboard_key_cap_test(key_cap: &str) -> (r: bool)
    ensures
        r == key_cap_ok(key_cap@),
{
    let key = convert_hex_string(key_cap);
    bits_set(key, KEYBOARD_KEYS_MASK)
}

/// `s` with leading and trailing whitespace removed.
pub open spec fn trimmed(s: Seq<char>) -> Seq<char>
    decreases s.len(),
{
    if s.len() == 0 {
        Seq::empty()
    } else if is_space(s[0]) {
        trimmed(s.subrange(1, s.len() as int))
    } else if is_space(s.last()) {
        trimmed(s.drop_last())
    } else {
        s
    }
}

fn space_char(c: char) -> (r: bool)
    ensures
        r == is_space(c),
{
    c == ' ' || c == '\n' || c == '\t' || c == '\r' || c == '\u{b}' || c == '\u{c}'
}

/// Remove leading and trailing whitespace.
pub(crate) fn trim_str(s: &str) -> (r: String)
    ensures
        r@ == trimmed(s@),
{
    let n = s.unicode_len();
    proof {
        assert(s@.subrange(0, n as int) =~= s@);
    }
    let mut a: usize = 0;
    while a < n && space_char(s.get_char(a))
        invariant
            a <= n,
            n == s@.len(),
            trimmed(s@) == trimmed(s@.subrange(a as int, n as int)),
        decreases n - a,
    {
        proof {
            assert(s@.subrange(a as int, n as int)[0] == s@[a as int]);
            assert(s@.subrange(a as int, n as int).subrange(
                1,
                s@.subrange(a as int, n as int).len() as int,
            ) =~= s@.subrange(a + 1, n as int));
        }
        a = a + 1;
    }
    let mut e: usize = n;
    while e > a && space_char(s.get_char(e - 1))
        invariant
            a <= e <= n,
            n == s@.len(),
            a < n ==> !is_space(s@[a as int]),
            trimmed(s@) == trimmed(s@.subrange(a as int, e as int)),
        decreases e,
    {
        proof {
            let part = s@.subrange(a as int, e as int);
            assert(part[0] == s@[a as int]);
            assert(part.last() == s@[e - 1]);
            assert(part.drop_last() =~= s@.subrange(a as int, e - 1));
        }
        e = e - 1;
    }
    proof {
        let part = s@.subrange(a as int, e as int);
        if part.len() > 0 {
            assert(part[0] == s@[a as int]);
            assert(part.last() == s@[e - 1]);
        }
        assert(trimmed(s@) == part);
    }
    let piece = s.substring_char(a, e);
    piece.to_owned()
}

/// Screen one candidate device: all three descriptors must be present and
/// both capability tests must pass. The result is the trimmed display name,
/// or nothing when the device is not a keyboard. A missing descriptor is a
/// skip, never an error.
pub fn screen_device(name: &Option<String>, ev_cap: &Option<String>, key_cap: &Option<String>) -> (r:
    Option<String>)
    ensures
        r is Some <==> (name is Some && ev_cap is Some && key_cap is Some && ev_cap_ok(
            ev_cap.unwrap()@,
        ) && key_cap_ok(key_cap.unwrap()@)),
        r matches Some(nm) ==> nm@ == trimmed(name.unwrap()@),
{
    let nm = match name {
        Some(nm) => nm,
        None => { return None; },
    };
    let ev = match ev_cap {
        Some(ev) => ev,
        None => { return None; },
    };
    let key = match key_cap {
        Some(key) => key,
        None => { return None; },
    };
    if !keyboard_ev_cap_test(ev.as_str()) {
        return None;
    }
    if !keyboard_key_cap_test(key.as_str()) {
        return None;
    }
    Some(trim_str(nm.as_str()))
}

/// The characters of the event subnode prefix.
pub open spec fn event_prefix() -> Seq<char> {
    seq!['e', 'v', 'e', 'n', 't']
}

/// Whether a path ends in an event subnode name: the fixed prefix "event"
/// followed by one or more digits, anchored at the end.
pub open spec fn event_matches(s: Seq<char>) -> bool {
    exists|k: int|
        0 <= k && k + 5 < s.len() && #[trigger] s.subrange(k, k + 5) == event_prefix() && (forall|
            j: int,
        |
            k + 5 <= j < s.len() ==> is_digit(#[trigger] s[j]))
}

/// Relies on regex::Regex::is_match with the fixed anchored pattern
/// "event[0-9]+$": it reports whether the haystack ends with "event"
/// followed by one or more ASCII digits. Regex::new cannot fail on this
/// fixed, well-formed pattern.
#[verifier::external_body]
fn is_event_path(s: &str) -> (r: bool)
    ensures
        r == event_matches(s@),
{
    regex::Regex::new(r"event[0-9]+$").unwrap().is_match(s)
}

/// Why no event subnode could be resolved; either way the one-to-one
/// device-to-subnode assumption is broken and enumeration must stop.
#[derive(Debug, PartialEq, Eq, Structural)]
pub enum EventNodeError {
    NoNode,
    MultipleNodes,
}

/// The directory entries that name an event subnode, in order.
pub open spec fn event_nodes(entries: Seq<String>) -> Seq<Seq<char>>
    decreases entries.len(),
{
    if entries.len() == 0 {
        Seq::empty()
    } else if event_matches(entries.last()@) {
        event_nodes(entries.drop_last()).push(entries.last()@)
    } else {
        event_nodes(entries.drop_last())
    }
}

/// Pick the single event subnode among a device directory's entries.
/// Exactly one entry must match the subnode pattern; zero or several break
/// the one-to-one assumption and are reported as errors.
pub fn find_event_node(entries: &Vec<String>) -> (r: Result<String, EventNodeError>)
    ensures
        r is Ok <==> event_nodes(entries@).len() == 1,
        r matches Ok(p) ==> p@ == event_nodes(entries@)[0],
        r == Err::<String, EventNodeError>(EventNodeError::NoNode) <==> event_nodes(
            entries@,
        ).len() == 0,
        r == Err::<String, EventNodeError>(EventNodeError::MultipleNodes) <==> event_nodes(
            entries@,
        ).len() > 1,
{
    let mut found: Option<String> = None;
    let mut count: usize = 0;
    let mut i: usize = 0;
    proof {
        assert(entries@.subrange(0, 0) =~= Seq::<String>::empty());
    }
    while i < entries.len()
        invariant
            i <= entries@.len(),
            count <= i,
            count == event_nodes(entries@.subrange(0, i as int)).len(),
            count >= 1 ==> (found matches Some(f) && f@ == event_nodes(
                entries@.subrange(0, i as int),
            )[0]),
            count == 0 ==> found is None,
        decreases entries@.len() - i,
    {
        let ghost pre = entries@.subrange(0, i as int);
        proof {
            assert(entries@.subrange(0, i + 1).drop_last() =~= pre);
            assert(entries@.subrange(0, i + 1).last() == entries@[i as int]);
        }
        if is_event_path(entries[i].as_str()) {
            if count == 0 {
                found = Some(entries[i].clone());
            }
            count = count + 1;
        }
        i = i + 1;
    }
    proof {
        assert(entries@.subrange(0, entries@.len() as int) =~= entries@);
    }
    if count == 1 {
        match found {
            Some(f) => Ok(f),
            None => { proof { assert(false); } Err(EventNodeError::NoNode) },
        }
    } else if count == 0 {
        Err(EventNodeError::NoNode)
    } else {
        Err(EventNodeError::MultipleNodes)
    }
}

/// The characters of the device node root "/dev/".
pub open spec fn dev_root() -> Seq<char> {
    seq!['/', 'd', 'e', 'v', '/']
}

/// Build the final keyboard record from the trimmed display name and the
/// uevent descriptor of the device's event subnode: the node path is the
/// device root "/dev/" followed by the extracted device name.
pub fn assemble_keyboard(name: String, uevent: String) -> (k: Keyboard)
    ensures
        k.name == name,
        k.path@ == dev_root() + uevent_extract(uevent@),
{
    let fragment = match get_uevent_device(uevent) {
        Some(d) => d,
        None => { proof { assert(false); } String::new() },
    };
    let mut path = root_str();
    path.append(fragment.as_str());
    Keyboard::new(name, path)
}

/// The device node root as a string.
fn root_str() -> (r: String)
    ensures
        r@ == dev_root(),
{
    let s = "/dev/";
    proof {
        reveal_strlit("/dev/");
        assert(s@ =~= dev_root());
    }
    s.to_owned()
}

} // verus!
