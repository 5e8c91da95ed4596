//! Percent-decoding of request targets.

use vstd::prelude::*;
use vstd::string::*;
use vstd::utf8::{decode_utf8, encode_utf8, valid_utf8};
use crate::http::error::{Error, ErrorModel};

verus! {

/// Stands for the text that `Debug` writes for the error of
/// `String::from_utf8` on bytes that are not UTF-8.
pub uninterp spec fn utf8_error_text(bytes: Seq<u8>) -> Seq<char>;

/// `String::from_utf8` turns bytes into the string that holds exactly these
/// bytes, and returns an error only for bytes that are not UTF-8. The error
/// is handed on as the text that `Debug` writes for it.
#[verifier::external_body]
fn string_from_utf8(bytes: Vec<u8>) -> (r: Result<String, String>)
    ensures
        match r {
            Ok(s) => encode_utf8(s@) == bytes@,
            Err(text) => !valid_utf8(bytes@) && text@ == utf8_error_text(bytes@),
        },
{
    match String::from_utf8(bytes) {
        Ok(s) => Ok(s),
        Err(e) => Err(format!("{:?}", e)),
    }
}

/// The value of a hexadecimal digit.
pub open spec fn hex_value(c: u8) -> Option<u8> {
    if 0x30 <= c <= 0x39 {
        Some((c - 0x30) as u8)
    } else if 0x61 <= c <= 0x66 {
        Some((c - 0x61 + 10) as u8)
    } else if 0x41 <= c <= 0x46 {
        Some((c - 0x41 + 10) as u8)
    } else {
        None
    }
}

/// The byte that two hexadecimal digits write.
pub open spec fn hex_byte(hi: u8, lo: u8) -> u8 {
    (hi << 4) | lo
}

/// The bytes of a percent-encoded text, decoded. A `%` with two hexadecimal
/// digits after it becomes the byte that they write. A `%` that lacks them
/// stays as it is, and so do the one or two bytes that were read after it.
pub open spec fn percent_decoded(b: Seq<u8>) -> Seq<u8>
    decreases b.len(),
{
    if b.len() == 0 {
        Seq::empty()
    } else if b[0] != 0x25 {
        seq![b[0]] + percent_decoded(b.subrange(1, b.len() as int))
    } else if b.len() == 1 {
        seq![b[0]]
    } else if hex_value(b[1]) is None {
        seq![b[0], b[1]] + percent_decoded(b.subrange(2, b.len() as int))
    } else if b.len() == 2 {
        seq![b[0], b[1]]
    } else if hex_value(b[2]) is None {
        seq![b[0], b[1], b[2]] + percent_decoded(b.subrange(3, b.len() as int))
    } else {
        seq![hex_byte(hex_value(b[1])->0, hex_value(b[2])->0)] + percent_decoded(
            b.subrange(3, b.len() as int),
        )
    }
}

/// What decoding a request target gives: the text that the decoded bytes
/// encode, or an error where they are not UTF-8.
pub open spec fn decode_result(s: Seq<char>, r: Result<String, Error>) -> bool {
    let bytes = percent_decoded(encode_utf8(s));
    match r {
        Ok(text) => valid_utf8(bytes) && text@ == decode_utf8(bytes),
        Err(e) => !valid_utf8(bytes) && e@ == ErrorModel::Parse(utf8_error_text(bytes)),
    }
}

fn from_hex(c: u8) -> (v: Option<u8>)
    ensures
        v == hex_value(c),
{
    if 0x30 <= c && c <= 0x39 {
        Some(c - 0x30)
    } else if 0x61 <= c && c <= 0x66 {
        Some(c - 0x61 + 10)
    } else if 0x41 <= c && c <= 0x46 {
        Some(c - 0x41 + 10)
    } else {
        None
    }
}

/// Decodes the percent-encoded bytes of `s`.
pub fn decode(s: &str) -> (r: Result<String, Error>)
    ensures
        decode_result(s@, r),
{
    let bytes = s.as_bytes();
    let n: usize = bytes.len();
    let mut out: Vec<u8> = Vec::new();
    let mut i: usize = 0;
    assert(bytes@.subrange(0, n as int) == bytes@);
    while i < n
        invariant
            i <= n == bytes@.len(),
            out@ + percent_decoded(bytes@.subrange(i as int, n as int)) == percent_decoded(bytes@),
        decreases n - i,
    {
        let ghost rest = bytes@.subrange(i as int, n as int);
        let ghost before = out@;
        let c: u8 = bytes[i];
        let mut step: usize = 1;
        if c != 0x25 {
            out.push(c);
        } else if i + 1 >= n {
            out.push(c);
        } else {
            let a: u8 = bytes[i + 1];
            assert(rest[1] == a);
            match from_hex(a) {
                None => {
                    out.push(c);
                    out.push(a);
                    step = 2;
                },
                Some(hi) => {
                    if i + 2 >= n {
                        out.push(c);
                        out.push(a);
                        step = 2;
                    } else {
                        let b: u8 = bytes[i + 2];
                        assert(rest[2] == b);
                        match from_hex(b) {
                            None => {
                                out.push(c);
                                out.push(a);
                                out.push(b);
                            },
                            Some(lo) => {
                                out.push((hi << 4) | lo);
                            },
                        }
                        step = 3;
                    }
                },
            }
        }
        proof {
            assert(rest[0] == c);
            assert(rest.subrange(step as int, rest.len() as int) == bytes@.subrange(
                i + step,
                n as int,
            ));
            let next = percent_decoded(bytes@.subrange(i + step, n as int));
            let added = out@.subrange(before.len() as int, out@.len() as int);
            assert(out@ == before + added);
            if i + step == n {
                assert(next == Seq::<u8>::empty());
            }
            assert(percent_decoded(rest) == added + next);
            assert(before + (added + next) == before + added + next);
        }
        i += step;
    }
    assert(percent_decoded(bytes@.subrange(n as int, n as int)) == Seq::<u8>::empty());
    assert(out@ + Seq::<u8>::empty() == out@);
    match string_from_utf8(out) {
        Ok(text) => {
            proof {
                vstd::utf8::encode_utf8_valid_utf8(text@);
                vstd::utf8::encode_utf8_decode_utf8(text@);
            }
            Ok(text)
        },
        Err(text) => Err(Error::Parse(text)),
    }
}

} // verus!
