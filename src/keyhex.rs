//! The pre-shared key as hexadecimal text, as operators pass it around.

use rustc_serialize::hex::{FromHex, ToHex};
use vstd::prelude::*;
use vstd::utf8::encode_utf8;

use crate::crypto::Key;

verus! {

/// Whether `c` is whitespace that hexadecimal text may hold anywhere.
pub open spec fn is_hex_space(c: u8) -> bool {
    c == 0x20 || c == 0x0d || c == 0x0a || c == 0x09
}

/// The value of hexadecimal digit `c`, upper or lower case.
pub open spec fn hex_value(c: u8) -> Option<u8> {
    if 0x30 <= c <= 0x39 {
        Some((c - 0x30) as u8)
    } else if 0x41 <= c <= 0x46 {
        Some((c - 0x41 + 10) as u8)
    } else if 0x61 <= c <= 0x66 {
        Some((c - 0x61 + 10) as u8)
    } else {
        None
    }
}

/// The digit values in `s`, whitespace left out; `None` where `s` holds
/// anything else.
pub open spec fn hex_digits(s: Seq<u8>) -> Option<Seq<u8>>
    decreases s.len(),
{
    if s.len() == 0 {
        Some(Seq::empty())
    } else if is_hex_space(s.last()) {
        hex_digits(s.drop_last())
    } else {
        match (hex_value(s.last()), hex_digits(s.drop_last())) {
            (Some(v), Some(d)) => Some(d.push(v)),
            _ => None,
        }
    }
}

/// Whether `b` is what digit values `d` spell, two to a byte, high first.
pub open spec fn spells(d: Seq<u8>, b: Seq<u8>) -> bool {
    &&& d.len() == 2 * b.len()
    &&& forall|i: int| 0 <= i < b.len() ==> #[trigger] b[i] == d[2 * i] * 16 + d[2 * i + 1]
}

/// The lower-case hexadecimal digit for `n` (below 16).
pub open spec fn hex_char(n: u8) -> char {
    seq!['0', '1', '2', '3', '4', '5', '6', '7', '8', '9', 'a', 'b', 'c', 'd', 'e', 'f'][n as int]
}

/// `b` in lower-case hexadecimal, two digits per byte, high first.
pub open spec fn hex_text(b: Seq<u8>) -> Seq<char>
    decreases b.len(),
{
    if b.len() == 0 {
        Seq::empty()
    } else {
        hex_text(b.drop_last()) + seq![hex_char(b.last() >> 4u8), hex_char(b.last() & 0xf)]
    }
}

/// Relies on rustc-serialize's `FromHex::from_hex` for `str`: it skips
/// spaces, tabs and line breaks, reads the other bytes as hexadecimal digits
/// two to a byte, and fails on any other character or an odd digit count.
#[verifier::external_body]
fn hex_decode(s: &str) -> (r: Option<Vec<u8>>)
    ensures
        r is Some <==> (hex_digits(encode_utf8(s@)) matches Some(d) && d.len() % 2 == 0),
        r matches Some(b) ==> spells(hex_digits(encode_utf8(s@)).unwrap(), b@),
{
    s.from_hex().ok()
}

/// Relies on rustc-serialize's `ToHex::to_hex` for byte slices: two
/// lower-case digits per byte, high first.
#[verifier::external_body]
fn hex_encode(b: &[u8]) -> (r: String)
    ensures
        r@ == hex_text(b@),
{
    b.to_hex()
}

impl Key {
    /// The key written in `s` as hexadecimal (whitespace allowed); `None`
    /// where `s` is not hexadecimal text. As with `from_bytes`, the first 16
    /// bytes count and a shorter key is padded with zeros.
    pub fn from_hex(s: &str) -> (r: Option<Key>)
        ensures
            r is Some <==> (hex_digits(encode_utf8(s@)) matches Some(d) && d.len() % 2 == 0),
            r matches Some(k) ==> forall|i: int|
                0 <= i < 16 ==> #[trigger] k.bytes@[i] == if 2 * i + 1 < hex_digits(
                    encode_utf8(s@),
                ).unwrap().len() {
                    hex_digits(encode_utf8(s@)).unwrap()[2 * i] * 16 + hex_digits(
                        encode_utf8(s@),
                    ).unwrap()[2 * i + 1]
                } else {
                    0
                },
    {
        match hex_decode(s) {
            Some(b) => {
                let k = Key::from_bytes(b.as_slice());
                assert forall|i: int| 0 <= i < 16 implies #[trigger] k.bytes@[i] == if 2 * i + 1
                    < hex_digits(encode_utf8(s@)).unwrap().len() {
                    hex_digits(encode_utf8(s@)).unwrap()[2 * i] * 16 + hex_digits(
                        encode_utf8(s@),
                    ).unwrap()[2 * i + 1]
                } else {
                    0
                } by {
                    if i < b@.len() {
                        assert(b@[i] == hex_digits(encode_utf8(s@)).unwrap()[2 * i] * 16
                            + hex_digits(encode_utf8(s@)).unwrap()[2 * i + 1]);
                    }
                }
                Some(k)
            },
            None => None,
        }
    }

    /// The key in lower-case hexadecimal, 32 digits.
    pub fn to_hex(&self) -> (r: String)
        ensures
            r@ == hex_text(self.bytes@),
    {
        hex_encode(self.bytes.as_slice())
    }
}

} // verus!
