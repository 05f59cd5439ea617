//! Route colours and the colours of the sign's own text.

use vstd::prelude::*;
use vstd::string::*;
use crate::text::str_eq;

verus! {

/// A colour as red, green and blue bytes.
pub type Rgb = (u8, u8, u8);

/// Broadway-Seventh Avenue line (1, 2, 3).
pub const COLOR_123: Rgb = (0xFF, 0x66, 0x44);
/// Lexington Avenue line (4, 5, 6).
pub const COLOR_456: Rgb = (0x00, 0xFF, 0x00);
/// Flushing line (7).
pub const COLOR_7: Rgb = (0xCC, 0x55, 0x88);
/// 42nd Street shuttle.
pub const COLOR_GS: Rgb = (0x99, 0x88, 0x88);
/// Eighth Avenue line (A, C, E).
pub const COLOR_ACE: Rgb = (0x28, 0x50, 0xAD);
/// Sixth Avenue line (B, D, F, M).
pub const COLOR_BDFM: Rgb = (0xFF, 0x63, 0x19);
/// Crosstown line (G).
pub const COLOR_G: Rgb = (0x6C, 0xBE, 0x45);
/// Canarsie line (L).
pub const COLOR_L: Rgb = (0xA7, 0xA9, 0xAC);
/// Jamaica line (J, Z).
pub const COLOR_JZ: Rgb = (0x99, 0x66, 0x33);
/// Broadway line (N, Q, R, W).
pub const COLOR_NQRW: Rgb = (0xFC, 0xCC, 0x0A);

/// Text of a train that is not arriving yet.
pub const COLOR_GREEN: Rgb = (0x00, 0xFF, 0x00);
/// Text of an arriving train.
pub const COLOR_RED: Rgb = (0xFF, 0x66, 0x44);
/// Alert text.
pub const COLOR_ORANGE: Rgb = (0xFF, 0x63, 0x19);
/// An unlit pixel.
pub const COLOR_BLACK: Rgb = (0x00, 0x00, 0x00);

/// The colour table: each known route id with its line's colour, green for
/// every other id.
pub open spec fn route_color_spec(route: Seq<char>) -> Rgb {
    if route == "1"@ || route == "2"@ || route == "3"@ {
        COLOR_123
    } else if route == "4"@ || route == "5"@ || route == "6"@ {
        COLOR_456
    } else if route == "7"@ {
        COLOR_7
    } else if route == "GS"@ {
        COLOR_GS
    } else if route == "A"@ || route == "C"@ || route == "E"@ {
        COLOR_ACE
    } else if route == "B"@ || route == "D"@ || route == "F"@ || route == "M"@ {
        COLOR_BDFM
    } else if route == "G"@ {
        COLOR_G
    } else if route == "L"@ {
        COLOR_L
    } else if route == "J"@ || route == "Z"@ {
        COLOR_JZ
    } else if route == "N"@ || route == "Q"@ || route == "R"@ || route == "W"@ {
        COLOR_NQRW
    } else {
        COLOR_GREEN
    }
}

/// The colour of a route.
pub fn route_color(route: &str) -> (c: Rgb)
    ensures
        c == route_color_spec(route@),
{
    if str_eq(route, "1") || str_eq(route, "2") || str_eq(route, "3") {
        COLOR_123
    } else if str_eq(route, "4") || str_eq(route, "5") || str_eq(route, "6") {
        COLOR_456
    } else if str_eq(route, "7") {
        COLOR_7
    } else if str_eq(route, "GS") {
        COLOR_GS
    } else if str_eq(route, "A") || str_eq(route, "C") || str_eq(route, "E") {
        COLOR_ACE
    } else if str_eq(route, "B") || str_eq(route, "D") || str_eq(route, "F") || str_eq(route, "M") {
        COLOR_BDFM
    } else if str_eq(route, "G") {
        COLOR_G
    } else if str_eq(route, "L") {
        COLOR_L
    } else if str_eq(route, "J") || str_eq(route, "Z") {
        COLOR_JZ
    } else if str_eq(route, "N") || str_eq(route, "Q") || str_eq(route, "R") || str_eq(route, "W") {
        COLOR_NQRW
    } else {
        COLOR_GREEN
    }
}

/// The routes that may run skip-stop service and so may have a diamond icon.
pub open spec fn is_express_capable_spec(route: Seq<char>) -> bool {
    route == "2"@ || route == "3"@ || route == "4"@ || route == "5"@ || route == "6"@
        || route == "7"@ || route == "A"@ || route == "D"@ || route == "E"@
}

/// Whether a route may run express service.
pub fn is_express_capable(route: &str) -> (r: bool)
    ensures
        r == is_express_capable_spec(route@),
{
    str_eq(route, "2") || str_eq(route, "3") || str_eq(route, "4") || str_eq(route, "5")
        || str_eq(route, "6") || str_eq(route, "7") || str_eq(route, "A") || str_eq(route, "D")
        || str_eq(route, "E")
}

/// The bytes that are left once every leading `#` is taken off.
pub open spec fn skip_hashes(bytes: Seq<u8>) -> Seq<u8>
    decreases bytes.len(),
{
    if bytes.len() > 0 && bytes[0] == 0x23 {
        skip_hashes(bytes.drop_first())
    } else {
        bytes
    }
}

/// The value of one hexadecimal digit, upper or lower case.
pub open spec fn hex_digit_value(b: u8) -> Option<u8> {
    if 0x30 <= b <= 0x39 {
        Some((b - 0x30) as u8)
    } else if 0x41 <= b <= 0x46 {
        Some((b - 0x41 + 10) as u8)
    } else if 0x61 <= b <= 0x66 {
        Some((b - 0x61 + 10) as u8)
    } else {
        None
    }
}

/// The value of a two-byte field read as a base-16 number: two digits, or a
/// plus sign and one digit. Anything else counts as zero.
pub open spec fn hex_pair_value(hi: u8, lo: u8) -> u8 {
    match (hex_digit_value(hi), hex_digit_value(lo)) {
        (Some(h), Some(l)) => (h * 16 + l) as u8,
        (None, Some(l)) => if hi == 0x2B { l } else { 0 },
        _ => 0,
    }
}

/// The colour that a hex colour string stands for: after the leading `#`
/// signs exactly six bytes must be left, read as three base-16 fields.
/// A string of another length stands for green.
pub open spec fn hex_to_rgb_spec(bytes: Seq<u8>) -> Rgb {
    let digits = skip_hashes(bytes);
    if digits.len() != 6 {
        COLOR_GREEN
    } else {
        (
            hex_pair_value(digits[0], digits[1]),
            hex_pair_value(digits[2], digits[3]),
            hex_pair_value(digits[4], digits[5]),
        )
    }
}

/// The value of a hexadecimal digit.
fn hex_digit(b: u8) -> (r: Option<u8>)
    ensures
        r == hex_digit_value(b),
{
    if 0x30 <= b && b <= 0x39 {
        Some(b - 0x30)
    } else if 0x41 <= b && b <= 0x46 {
        Some(b - 0x41 + 10)
    } else if 0x61 <= b && b <= 0x66 {
        Some(b - 0x61 + 10)
    } else {
        None
    }
}

/// The value of two hexadecimal digits.
fn hex_pair(hi: u8, lo: u8) -> (r: u8)
    ensures
        r == hex_pair_value(hi, lo),
{
    match (hex_digit(hi), hex_digit(lo)) {
        (Some(h), Some(l)) => h * 16 + l,
        (None, Some(l)) => if hi == 0x2B { l } else { 0 },
        _ => 0,
    }
}

/// Converts a hex colour string such as `#FF6644` to a colour.
pub fn hex_to_rgb(hex: &str) -> (c: Rgb)
    ensures
        c == hex_to_rgb_spec(hex.spec_bytes()),
{
    let bytes = hex.as_bytes();
    let mut start: usize = 0;
    assert(bytes@.subrange(0, bytes@.len() as int) =~= bytes@);
    while start < bytes.len() && bytes[start] == 0x23
        invariant
            start <= bytes@.len(),
            skip_hashes(bytes@) == skip_hashes(bytes@.subrange(start as int, bytes@.len() as int)),
        decreases bytes@.len() - start,
    {
        proof {
            let rest = bytes@.subrange(start as int, bytes@.len() as int);
            assert(rest.drop_first() =~= bytes@.subrange(start + 1, bytes@.len() as int));
        }
        start += 1;
    }
    let ghost digits = bytes@.subrange(start as int, bytes@.len() as int);
    assert(skip_hashes(digits) == digits);
    if bytes.len() - start != 6 {
        return COLOR_GREEN;
    }
    (
        hex_pair(bytes[start], bytes[start + 1]),
        hex_pair(bytes[start + 2], bytes[start + 3]),
        hex_pair(bytes[start + 4], bytes[start + 5]),
    )
}

} // verus!
