//! The marker classifier: what a list marker says about its list.

use vstd::prelude::*;
use crate::arena::MarkerClose;
use crate::text::{number_u32, parse_u32, subvec};
use crate::tree::Marker;

verus! {

/// How a marker ends: what its last character says, the first character
/// apart.
pub open spec fn marker_close(marker: Seq<char>) -> MarkerClose {
    if marker.len() >= 2 && marker.last() == ')' {
        MarkerClose::Bracket
    } else if marker.len() >= 2 && marker.last() == '.' {
        MarkerClose::Dot
    } else {
        MarkerClose::Plain
    }
}

/// The kind of list that a marker opens, told by its first character. The
/// letters `i` and `I` always count as Roman numerals.
pub open spec fn marker_kind(marker: Seq<char>) -> Marker {
    if marker.len() == 0 {
        Marker::Numeric
    } else {
        let c = marker[0];
        if c == '*' {
            Marker::Bullet
        } else if c == '-' {
            Marker::Dash
        } else if c == '+' {
            Marker::Plus
        } else if c == 'i' {
            Marker::LowerRoman
        } else if c == 'I' {
            Marker::UpperRoman
        } else if 'a' <= c <= 'z' {
            Marker::LowerAlpha
        } else if 'A' <= c <= 'Z' {
            Marker::UpperAlpha
        } else {
            Marker::Numeric
        }
    }
}

/// The number at which a marker starts its list: the place of a letter in
/// the alphabet, the value of the digits before the closing character, and 1
/// for a bullet, a Roman numeral or digits that give no 32-bit number.
pub open spec fn marker_start(marker: Seq<char>) -> u32 {
    match marker_kind(marker) {
        Marker::LowerAlpha => (marker[0] as u32 - 'a' as u32 + 1) as u32,
        Marker::UpperAlpha => (marker[0] as u32 - 'A' as u32 + 1) as u32,
        Marker::Numeric => if marker.len() == 0 {
            1
        } else {
            match number_u32(marker.drop_last()) {
                Some(v) => v,
                None => 1,
            }
        },
        _ => 1,
    }
}

/// Reads a list marker, white space already removed: the kind of list, how
/// the marker ends, and the number the list starts at.
pub fn parse_marker(marker: &Vec<char>) -> (r: (Marker, MarkerClose, u32))
    ensures
        r.0 == marker_kind(marker@),
        r.1 == marker_close(marker@),
        r.2 == marker_start(marker@),
{
    let n: usize = marker.len();
    let close = if n >= 2 && marker[n - 1] == ')' {
        MarkerClose::Bracket
    } else if n >= 2 && marker[n - 1] == '.' {
        MarkerClose::Dot
    } else {
        MarkerClose::Plain
    };
    if n == 0 {
        return (Marker::Numeric, close, 1);
    }
    let c: char = marker[0];
    if c == '*' {
        (Marker::Bullet, close, 1)
    } else if c == '-' {
        (Marker::Dash, close, 1)
    } else if c == '+' {
        (Marker::Plus, close, 1)
    } else if c == 'i' {
        (Marker::LowerRoman, close, 1)
    } else if c == 'I' {
        (Marker::UpperRoman, close, 1)
    } else if 'a' <= c && c <= 'z' {
        (Marker::LowerAlpha, close, c as u32 - 'a' as u32 + 1)
    } else if 'A' <= c && c <= 'Z' {
        (Marker::UpperAlpha, close, c as u32 - 'A' as u32 + 1)
    } else {
        let digits = subvec(marker, 0, n - 1);
        assert(digits@ == marker@.drop_last());
        let start: u32 = match parse_u32(&digits) {
            Some(v) => v,
            None => 1,
        };
        (Marker::Numeric, close, start)
    }
}

} // verus!
