//! Small pieces of the desktop app's settings: the system accent colour and the log
//! level a release channel allows.
use vstd::prelude::*;

use crate::text::{push_char, str_eq, to_owned_string};

verus! {

/// The system accent colour, with its `#RRGGBB` form.
#[derive(Clone, Debug, PartialEq, Eq)]
pub struct AccentColor {
    pub hex: String,
    pub r: u8,
    pub g: u8,
    pub b: u8,
}

/// The upper-case hexadecimal digit of `d` (below 16).
pub open spec fn hex_digit(d: int) -> char {
    if d < 10 {
        (('0' as int) + d) as char
    } else {
        (('A' as int) + d - 10) as char
    }
}

/// Two upper-case hexadecimal digits of a byte.
pub open spec fn hex_byte(x: u8) -> Seq<char> {
    seq![hex_digit(x as int / 16), hex_digit(x as int % 16)]
}

/// The upper-case hexadecimal digit of `d`.
fn hex_digit_char(d: u8) -> (c: char)
    requires
        d < 16,
    ensures
        c == hex_digit(d as int),
{
    match d {
        0 => '0',
        1 => '1',
        2 => '2',
        3 => '3',
        4 => '4',
        5 => '5',
        6 => '6',
        7 => '7',
        8 => '8',
        9 => '9',
        10 => 'A',
        11 => 'B',
        12 => 'C',
        13 => 'D',
        14 => 'E',
        _ => 'F',
    }
}

impl AccentColor {
    /// The colour with the given components; `hex` is `#` and two upper-case hex digits
    /// per component.
    pub fn new(r: u8, g: u8, b: u8) -> (c: Self)
        ensures
            c.r == r,
            c.g == g,
            c.b == b,
            c.hex@ == seq!['#'] + hex_byte(r) + hex_byte(g) + hex_byte(b),
    {
        let mut hex = String::new();
        push_char(&mut hex, '#');
        push_char(&mut hex, hex_digit_char(r / 16));
        push_char(&mut hex, hex_digit_char(r % 16));
        push_char(&mut hex, hex_digit_char(g / 16));
        push_char(&mut hex, hex_digit_char(g % 16));
        push_char(&mut hex, hex_digit_char(b / 16));
        push_char(&mut hex, hex_digit_char(b % 16));
        proof {
            assert(hex@ =~= seq!['#'] + hex_byte(r) + hex_byte(g) + hex_byte(b));
        }
        AccentColor { hex, r, g, b }
    }
}

/// The log level used on a release channel: the beta channel logs at least at debug
/// level; other channels keep the chosen level.
pub open spec fn log_level_for_channel_spec(channel: Seq<char>, log_level: Seq<char>) -> Seq<char> {
    if channel == "beta"@ && !(log_level == "debug"@ || log_level == "trace"@) {
        "debug"@
    } else {
        log_level
    }
}

/// The log level used on a release channel.
pub fn log_level_for_channel(channel: &str, log_level: &str) -> (r: String)
    ensures
        r@ == log_level_for_channel_spec(channel@, log_level@),
{
    if str_eq(channel, "beta") && !(str_eq(log_level, "debug") || str_eq(log_level, "trace")) {
        to_owned_string("debug")
    } else {
        to_owned_string(log_level)
    }
}

} // verus!
