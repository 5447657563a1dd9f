//! Public keys as text.
use vstd::prelude::*;
use vstd::utf8::{encode_utf8, is_ascii_chars, is_ascii_chars_encode_utf8};
use crate::text::{dec_text, hex_char, owned, push_decimal, push_text};

verus! {

/// Why a text is no hexadecimal number.
#[derive(Clone, Copy, Debug, PartialEq, Eq, Structural)]
pub enum HexError {
    /// A byte that is no digit, as the character of that number, and where it is.
    InvalidCharacter { c: char, index: usize },
    /// There is a digit too many.
    OddLength,
    /// There are not as many digits as asked for.
    InvalidLength,
}

/// Whether a byte is a hexadecimal digit.
pub open spec fn is_hex_byte(b: u8) -> bool {
    48 <= b <= 57 || 65 <= b <= 70 || 97 <= b <= 102
}

/// The value of a hexadecimal digit.
pub open spec fn hex_byte_value(b: u8) -> nat {
    if 48 <= b <= 57 {
        (b - 48) as nat
    } else if 65 <= b <= 70 {
        (b - 65 + 10) as nat
    } else {
        (b - 97 + 10) as nat
    }
}

/// The first byte, from a position on, that is no hexadecimal digit.
pub open spec fn first_non_hex(s: Seq<u8>, from: int) -> Option<int>
    decreases s.len() - from,
{
    if from < 0 || from >= s.len() {
        None
    } else if !is_hex_byte(s[from]) {
        Some(from)
    } else {
        first_non_hex(s, from + 1)
    }
}

/// The bytes that hexadecimal digits write, two each.
pub open spec fn hex_decoded(s: Seq<u8>) -> Seq<u8> {
    Seq::new(
        s.len() / 2,
        |i: int| (hex_byte_value(s[2 * i]) * 16 + hex_byte_value(s[2 * i + 1])) as u8,
    )
}

/// What decoding a hexadecimal text gives.
pub open spec fn hex_decode(s: Seq<u8>) -> Result<Seq<u8>, HexError> {
    if s.len() % 2 != 0 {
        Err(HexError::OddLength)
    } else {
        match first_non_hex(s, 0) {
            Some(i) => Err(HexError::InvalidCharacter { c: s[i] as char, index: i as usize }),
            None => Ok(hex_decoded(s)),
        }
    }
}

/// The lower case hexadecimal text of bytes, two digits each.
pub open spec fn hex_encoded(b: Seq<u8>) -> Seq<char> {
    Seq::new(
        2 * b.len(),
        |i: int|
            if i % 2 == 0 {
                hex_char((b[i / 2] / 16) as nat)
            } else {
                hex_char((b[i / 2] % 16) as nat)
            },
    )
}

/// How a character is written in a diagnostic text.
pub uninterp spec fn char_debug(c: char) -> Seq<char>;

/// What `hex_decode` says of a result.
pub open spec fn decodes_to(s: Seq<u8>, r: Result<Vec<u8>, HexError>) -> bool {
    match hex_decode(s) {
        Ok(b) => r matches Ok(v) && v@ == b,
        Err(e) => r matches Err(f) && f == e,
    }
}

/// `hex::decode`: an odd number of bytes is refused, then the first byte that is
/// no hexadecimal digit of either case; else every two digits write a byte.
#[verifier::external_body]
pub(crate) fn decode_hex(s: &[u8]) -> (r: Result<Vec<u8>, HexError>)
    ensures
        decodes_to(s@, r),
{
    hex::decode(s).map_err(
        |e|
            match e {
                hex::FromHexError::InvalidHexCharacter { c, index } => HexError::InvalidCharacter {
                    c,
                    index,
                },
                hex::FromHexError::OddLength => HexError::OddLength,
                hex::FromHexError::InvalidStringLength => HexError::InvalidLength,
            },
    )
}

/// `hex::encode`: two lower case digits for every byte.
#[verifier::external_body]
fn encode_hex(b: &[u8]) -> (r: String)
    ensures
        r@ == hex_encoded(b@),
{
    hex::encode(b)
}

/// The `Debug` form of a character of the standard library: the character in
/// single quotes, with an escape where the library's tables call for one.
#[verifier::external_body]
fn debug_char(c: char) -> (r: String)
    ensures
        r@ == char_debug(c),
{
    format!("{:?}", c)
}

impl HexError {
    /// The error as a text.
    pub open spec fn text(self) -> Seq<char> {
        match self {
            HexError::InvalidCharacter { c, index } => "Invalid character "@ + char_debug(c)
                + " at position "@ + dec_text(index as nat),
            HexError::OddLength => "Odd number of digits"@,
            HexError::InvalidLength => "Invalid string length"@,
        }
    }

    /// The error as a text.
    pub fn describe(self) -> (r: String)
        ensures
            r@ == self.text(),
    {
        match self {
            HexError::InvalidCharacter { c, index } => {
                let mut r = owned("Invalid character ");
                push_text(&mut r, debug_char(c).as_str());
                push_text(&mut r, " at position ");
                push_decimal(&mut r, index as u64);
                r
            },
            HexError::OddLength => owned("Odd number of digits"),
            HexError::InvalidLength => owned("Invalid string length"),
        }
    }
}

/// A public key as text.
pub fn public_key_text(key: &[u8; 32]) -> (r: String)
    ensures
        r@ == hex_encoded(key@),
        r@.len() == 64,
{
    encode_hex(key.as_slice())
}

/// A key pair in hexadecimal.
pub fn keypair_text(keypair: &[u8; 64]) -> (r: String)
    ensures
        r@ == hex_encoded(keypair@),
{
    encode_hex(keypair.as_slice())
}

/// Bytes that have been written in hexadecimal read back.
pub proof fn law_hex_round_trip(b: Seq<u8>)
    ensures
        hex_decode(encode_utf8(hex_encoded(b))) == Ok::<_, HexError>(b),
{
    let s = hex_encoded(b);
    assert(is_ascii_chars(s));
    is_ascii_chars_encode_utf8(s);
    let e = encode_utf8(s);
    assert forall|i: int| 0 <= i < e.len() implies is_hex_byte(#[trigger] e[i]) by {
        assert(e[i] == s[i] as u8);
    }
    lemma_all_hex(e, 0);
    assert forall|i: int| 0 <= i < b.len() implies hex_decoded(e)[i] == b[i] by {
        assert(e[2 * i] == s[2 * i] as u8);
        assert(e[2 * i + 1] == s[2 * i + 1] as u8);
        assert(hex_byte_value(e[2 * i]) == b[i] / 16);
        assert(hex_byte_value(e[2 * i + 1]) == b[i] % 16);
    }
    assert(hex_decoded(e) =~= b);
}

proof fn lemma_all_hex(s: Seq<u8>, from: int)
    requires
        0 <= from,
        forall|i: int| 0 <= i < s.len() ==> is_hex_byte(#[trigger] s[i]),
    ensures
        first_non_hex(s, from) is None,
    decreases s.len() - from,
{
    if from < s.len() {
        lemma_all_hex(s, from + 1);
    }
}

/// Keys are written with two lower case hexadecimal digits for each byte, the upper half
/// first.
pub proof fn law_keys_are_hexadecimal(
    key: &[u8; 32],
    a: String,
    pair: &[u8; 64],
    b: String,
    i: int,
    j: int,
)
    requires
        call_ensures(public_key_text, (key,), a),
        call_ensures(keypair_text, (pair,), b),
        0 <= i < 32,
        0 <= j < 64,
    ensures
        a@.len() == 64 && b@.len() == 128,
        a@[2 * i] == "0123456789abcdef"@[(key@[i] / 16) as int],
        a@[2 * i + 1] == "0123456789abcdef"@[(key@[i] % 16) as int],
        b@[2 * j] == "0123456789abcdef"@[(pair@[j] / 16) as int],
        b@[2 * j + 1] == "0123456789abcdef"@[(pair@[j] % 16) as int],
{
    reveal_strlit("0123456789abcdef");
}

/// What is wrong with a hexadecimal text is told, with the character and its place where
/// that is at fault.
pub proof fn law_hexadecimal_errors(e: HexError, r: String)
    requires
        call_ensures(HexError::describe, (e,), r),
    ensures
        e is OddLength ==> r@ == "Odd number of digits"@,
        e is InvalidLength ==> r@ == "Invalid string length"@,
        e matches HexError::InvalidCharacter { c, index } ==> r@ == "Invalid character "@
            + char_debug(c) + " at position "@ + dec_text(index as nat),
{
}

} // verus!
