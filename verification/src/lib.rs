//! Keyboard detection for touchpad suppression.
//!
//! The library decides, from the capability descriptors that the operating
//! system exposes for each input device, whether a device is a keyboard,
//! resolves the device to its addressable node, remembers a user's choice of
//! keyboard, and classifies key presses into modifier and ordinary keys.
//! All file and terminal handling stays with the callers: every function here
//! works on plain values.

pub mod bits;
pub mod classify;
pub mod hexcap;
pub mod keyfilter;
pub mod numbers;
pub mod params;
pub mod uevent;

pub use bits::bits_set;
pub use bits::mask_build;
pub use classify::keyboard_ev_cap_test;
pub use classify::keyboard_key_cap_test;
pub use classify::Keyboard;
pub use hexcap::convert_hex_string;
pub use keyfilter::counts_as_typing;
pub use numbers::is_integer;
pub use params::Params;
pub use uevent::get_uevent_device;
