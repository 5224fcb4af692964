//! What the environment sets. A value that is missing or makes no sense leaves the default.

use crate::number::{bounded_value, parse_u32, parse_u64};
use crate::text::option_view;
use vstd::prelude::*;

verus! {

/// How long a prompt may take, in milliseconds: half an hour.
pub const DEFAULT_TIMEOUT_MS: u64 = 1_800_000;

/// How many lines a turn reads.
pub const DEFAULT_READ_LINES: u32 = 1000;

/// How many lines of the screen are shown.
pub const DEFAULT_SCREEN_LINES: u32 = 120;

/// The number that `value` sets, if it is a whole number from `min` to `max`, else `default`.
pub open spec fn setting(value: Option<Seq<char>>, min: nat, max: nat, default: nat) -> nat {
    match value {
        Some(text) => match bounded_value(text, max) {
            Some(n) => if n >= min {
                n
            } else {
                default
            },
            None => default,
        },
        None => default,
    }
}

/// How long a prompt may take, in milliseconds. `value` is that of `COKAC_HERDR_TIMEOUT_MS`; a
/// time below a second is not taken.
pub fn timeout_ms(value: Option<&str>) -> (r: u64)
    ensures
        r == setting(option_view(value), 1000, u64::MAX as nat, DEFAULT_TIMEOUT_MS as nat),
{
    match value {
        Some(text) => match parse_u64(text) {
            Some(n) => if n >= 1000 {
                n
            } else {
                DEFAULT_TIMEOUT_MS
            },
            None => DEFAULT_TIMEOUT_MS,
        },
        None => DEFAULT_TIMEOUT_MS,
    }
}

/// The number of lines that `value` sets, else `default`.
fn lines_setting(value: Option<&str>, default: u32) -> (r: u32)
    ensures
        r == setting(option_view(value), 1, u32::MAX as nat, default as nat),
{
    match value {
        Some(text) => match parse_u32(text) {
            Some(n) => if n > 0 {
                n
            } else {
                default
            },
            None => default,
        },
        None => default,
    }
}

/// How many lines a turn reads. `value` is that of `COKAC_HERDR_READ_LINES`.
pub fn read_lines(value: Option<&str>) -> (r: u32)
    ensures
        r == setting(option_view(value), 1, u32::MAX as nat, DEFAULT_READ_LINES as nat),
{
    lines_setting(value, DEFAULT_READ_LINES)
}

/// How many lines of the screen are shown. `value` is that of `COKAC_HERDR_SCREEN_LINES`.
pub fn screen_lines(value: Option<&str>) -> (r: u32)
    ensures
        r == setting(option_view(value), 1, u32::MAX as nat, DEFAULT_SCREEN_LINES as nat),
{
    lines_setting(value, DEFAULT_SCREEN_LINES)
}

/// Whatever the environment sets, a prompt gets at least a second, and at least one line is read.
pub proof fn law_settings_in_range(value: Option<Seq<char>>)
    ensures
        1000 <= setting(value, 1000, u64::MAX as nat, DEFAULT_TIMEOUT_MS as nat) <= u64::MAX,
        1 <= setting(value, 1, u32::MAX as nat, DEFAULT_READ_LINES as nat) <= u32::MAX,
        1 <= setting(value, 1, u32::MAX as nat, DEFAULT_SCREEN_LINES as nat) <= u32::MAX,
{
}

} // verus!
