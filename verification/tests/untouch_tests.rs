use untouch::bits_set;
use untouch::classify::assemble_keyboard;
use untouch::classify::find_event_node;
use untouch::classify::screen_device;
use untouch::classify::EventNodeError;
use untouch::classify::Keyboard;
use untouch::convert_hex_string;
use untouch::counts_as_typing;
use untouch::get_uevent_device;
use untouch::is_integer;
use untouch::keyboard_ev_cap_test;
use untouch::keyboard_key_cap_test;
use untouch::mask_build;
use untouch::numbers::parse_i32;
use untouch::params::find_by_name;
use untouch::params::parse_selection;

#[test]
fn test_bits_set() {
    let val = 3;
    let mask = 3;
    assert_eq!(true, bits_set(val, mask));
    let val = 3;
    let mask = 2;
    assert_eq!(true, bits_set(val, mask));
    let val = 3;
    let mask = 4;
    assert_eq!(false, bits_set(val, mask));
    let val = 2;
    let mask = 1;
    assert_eq!(false, bits_set(val, mask));
    let val = 5;
    let mask = 2;
    assert_eq!(false, bits_set(val, mask));
}

#[test]
fn test_ev_cap() {
    let hex = String::from("ff");
    let num = u8::from_str_radix(&hex, 16);
    assert_eq!(255, num.unwrap());
    assert!(keyboard_ev_cap_test("3"));
    assert!(keyboard_ev_cap_test("3\n"));
    assert!(!keyboard_ev_cap_test("2\n"));
    assert!(!keyboard_ev_cap_test("2\n"));
    assert!(!keyboard_ev_cap_test("1\n"));
    assert!(!keyboard_ev_cap_test("8\n"));
}

#[test]
fn test_key_cap() {
    assert!(keyboard_key_cap_test("ffffffffffffffff"));
    assert!(keyboard_key_cap_test("fffffffffffffffe"));
    assert!(!keyboard_key_cap_test("fffffffffffffffd"));
}

#[test]
fn test_uevent() {
    let udev_file_contents = String::from("MAJOR=13\nMINOR=64\nDEVNAME=input/event0");
    assert_eq!(
        Some(String::from("input/event0")),
        get_uevent_device(udev_file_contents)
    );
}

#[test]
fn mask_build_test() {
    assert_eq!(1, 1 << 0);
    assert_eq!(2, 1 << 1);
    assert_eq!(4, 1 << 2);
    let mask = [0, 1, 2, 3];
    assert_eq!(15u64, mask_build(&mask));
    let mask = [0, 1];
    assert_eq!(3u64, mask_build(&mask));
    let mask = [1];
    assert_eq!(2u64, mask_build(&mask));
}

#[test]
fn convert_hex_values() {
    assert_eq!(3, convert_hex_string("3"));
    assert_eq!(3, convert_hex_string("3\n"));
    assert_eq!(255, convert_hex_string("ff"));
    assert_eq!(0x120013, convert_hex_string("120013"));
    assert_eq!(0xAB, convert_hex_string("AB"));
    // only the last whitespace-separated group counts
    assert_eq!(0, convert_hex_string("70000 0 0 0 0"));
    assert_eq!(
        0xfffffffffffffffe,
        convert_hex_string("402000000 3803078f800d001 feffffdfffefffff fffffffffffffffe")
    );
}

#[test]
fn convert_hex_fail_soft() {
    assert_eq!(0, convert_hex_string(""));
    assert_eq!(0, convert_hex_string("  \n\t"));
    assert_eq!(0, convert_hex_string("xyz"));
    assert_eq!(0, convert_hex_string("12g4"));
    // a 17-digit group overflows 64 bits and decodes to zero
    assert_eq!(0, convert_hex_string("1ffffffffffffffff"));
    // leading zeros do not overflow
    assert_eq!(255, convert_hex_string("00000000000000000ff"));
}

#[test]
fn uevent_without_devname() {
    assert_eq!(
        Some(String::new()),
        get_uevent_device(String::from("MAJOR=13\nMINOR=64"))
    );
    assert_eq!(
        Some(String::new()),
        get_uevent_device(String::from("DEVNAME=\nMAJOR=13"))
    );
    assert_eq!(Some(String::new()), get_uevent_device(String::new()));
}

#[test]
fn screen_device_scenario() {
    // scenario A: a keyboard-like device passes and keeps its trimmed name
    let r = screen_device(
        &Some(String::from("Test KB\n")),
        &Some(String::from("3")),
        &Some(String::from("fffffffffffffffe")),
    );
    assert_eq!(Some(String::from("Test KB")), r);
}

#[test]
fn screen_device_rejects_ev() {
    // scenario B: event-type word 2 lacks the synchronization class
    let r = screen_device(
        &Some(String::from("Test KB\n")),
        &Some(String::from("2")),
        &Some(String::from("fffffffffffffffe")),
    );
    assert_eq!(None, r);
}

#[test]
fn screen_device_missing_files() {
    let name = Some(String::from("Test KB"));
    let ev = Some(String::from("3"));
    let key = Some(String::from("fffffffffffffffe"));
    assert_eq!(None, screen_device(&None, &ev, &key));
    assert_eq!(None, screen_device(&name, &None, &key));
    assert_eq!(None, screen_device(&name, &ev, &None));
}

#[test]
fn event_node_single() {
    let entries = vec![
        String::from("/sys/devices/plat/input/input3/capabilities"),
        String::from("/sys/devices/plat/input/input3/event7"),
        String::from("/sys/devices/plat/input/input3/name"),
    ];
    assert_eq!(
        Ok(String::from("/sys/devices/plat/input/input3/event7")),
        find_event_node(&entries)
    );
}

#[test]
fn event_node_zero_or_many() {
    // scenario C: two event subnodes break the one-to-one assumption
    let two = vec![
        String::from("/sys/devices/plat/input/input3/event7"),
        String::from("/sys/devices/plat/input/input3/event8"),
    ];
    assert_eq!(Err(EventNodeError::MultipleNodes), find_event_node(&two));
    let none = vec![
        String::from("/sys/devices/plat/input/input3/name"),
        String::from("/sys/devices/plat/input/input3/eventless"),
        String::from("/sys/devices/plat/input/input3/event"),
    ];
    assert_eq!(Err(EventNodeError::NoNode), find_event_node(&none));
}

#[test]
fn assemble_scenario() {
    // scenario A, resolution step: DEVNAME under the event subnode
    let k = assemble_keyboard(
        String::from("Test KB"),
        String::from("MAJOR=13\nMINOR=70\nDEVNAME=input/event7"),
    );
    assert_eq!("Test KB", k.name);
    assert_eq!("/dev/input/event7", k.path);
}

#[test]
fn key_filter() {
    assert!(!counts_as_typing(29));
    assert!(counts_as_typing(30));
    assert!(!counts_as_typing(56));
    assert!(!counts_as_typing(97));
    assert!(!counts_as_typing(100));
    assert!(counts_as_typing(1));
}

#[test]
fn selection_round_trip() {
    let keyboards = vec![
        Keyboard::new(String::from("Other"), String::from("/dev/input/event1")),
        Keyboard::new(String::from("Test KB"), String::from("/dev/input/event7")),
    ];
    // save writes the chosen name; load matches it back
    let saved = keyboards[1].name.clone();
    let found = find_by_name(&keyboards, &saved);
    assert_eq!(Some(1), found);
    assert_eq!("Test KB", keyboards[found.unwrap()].name);
    // a stored name matching no enumerated device finds nothing
    assert_eq!(None, find_by_name(&keyboards, "Gone KB"));
}

#[test]
fn selection_parse() {
    assert_eq!(Some(0), parse_selection("0", 3));
    assert_eq!(Some(2), parse_selection("2\n", 3));
    assert_eq!(None, parse_selection("3", 3));
    assert_eq!(None, parse_selection("-1", 3));
    assert_eq!(None, parse_selection("two", 3));
    assert_eq!(None, parse_selection("", 3));
}

#[test]
fn integer_check() {
    assert_eq!(Ok(()), is_integer("123"));
    assert_eq!(Ok(()), is_integer("-5"));
    assert_eq!(Ok(()), is_integer("+7"));
    assert_eq!(Ok(()), is_integer("2147483647"));
    assert_eq!(Ok(()), is_integer("-2147483648"));
    assert_eq!(
        Err(String::from("An integer is required.")),
        is_integer("2147483648")
    );
    assert_eq!(Err(String::from("An integer is required.")), is_integer(""));
    assert_eq!(
        Err(String::from("An integer is required.")),
        is_integer("12a")
    );
}

#[test]
fn integer_values() {
    assert_eq!(Some(17), parse_i32("17"));
    assert_eq!(Some(-17), parse_i32("-17"));
    assert_eq!(Some(i32::MIN), parse_i32("-2147483648"));
    assert_eq!(Some(i32::MAX), parse_i32("2147483647"));
    assert_eq!(None, parse_i32("2147483648"));
    assert_eq!(None, parse_i32("+"));
    assert_eq!(None, parse_i32("1 2"));
}
