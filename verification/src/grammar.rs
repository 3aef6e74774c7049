//! Character classes of the HTTP/1.1 grammar, as predicates over octets.

use crate::text::collapse_blanks;
use vstd::prelude::*;

verus! {

/// `CTL`: the US-ASCII control characters (octets 0 - 31) and DEL (127).
pub open spec fn control_char(byte: u8) -> bool {
    byte < 32 || byte == 127
}

/// The separators `( ) < > @ , ; : \ " / [ ] ? = { }`, SP and HT.
pub open spec fn separator(byte: u8) -> bool {
    ||| byte == 0x28 || byte == 0x29 || byte == 0x3C || byte == 0x3E || byte == 0x40
    ||| byte == 0x2C || byte == 0x3B || byte == 0x3A || byte == 0x5C || byte == 0x22
    ||| byte == 0x2F || byte == 0x5B || byte == 0x5D || byte == 0x3F || byte == 0x3D
    ||| byte == 0x7B || byte == 0x7D || byte == 0x20 || byte == 0x09
}

/// `VCHAR`: the visible US-ASCII characters, `%x21-7E`.
pub open spec fn visible_char(byte: u8) -> bool {
    0x21 <= byte <= 0x7E
}

/// A character of a token: any US-ASCII character except controls and separators.
pub open spec fn token_char(byte: u8) -> bool {
    byte < 128 && !control_char(byte) && !separator(byte)
}

/// `A-Z`.
pub open spec fn upper_alpha(byte: u8) -> bool {
    65 <= byte <= 90
}

/// `0-9`, `A-F`, `a-f`.
pub open spec fn hex_digit(byte: u8) -> bool {
    (48 <= byte <= 57) || (65 <= byte <= 70) || (97 <= byte <= 102)
}

/// The ASCII lower-case fold of one octet: `A-Z` move to `a-z`, all other octets stay.
pub open spec fn lower_case(byte: u8) -> u8 {
    if upper_alpha(byte) {
        (byte + 32) as u8
    } else {
        byte
    }
}

/// Every octet is a token character.
pub open spec fn token_octets(bytes: Seq<u8>) -> bool {
    forall|i: int| 0 <= i < bytes.len() ==> token_char(#[trigger] bytes[i])
}

/// Every octet is a visible character.
pub open spec fn visible_octets(bytes: Seq<u8>) -> bool {
    forall|i: int| 0 <= i < bytes.len() ==> visible_char(#[trigger] bytes[i])
}

/// Every octet is a visible character, SP or HT.
pub open spec fn visible_or_blank_octets(bytes: Seq<u8>) -> bool {
    forall|i: int|
        0 <= i < bytes.len() ==> {
            let b = #[trigger] bytes[i];
            visible_char(b) || b == 32 || b == 9
        }
}

/// A table of truth values from a table of octets: true where the octet is not zero.
pub fn byte_to_bool(bytes: [u8; 256]) -> (result: [bool; 256])
    ensures
        forall|i: int| 0 <= i < 256 ==> result@[i] == (bytes@[i] != 0),
{
    let mut result = [false;256];
    let mut i: usize = 0;
    while i < 256
        invariant
            i <= 256,
            forall|j: int| 0 <= j < i ==> result@[j] == (bytes@[j] != 0),
        decreases 256 - i,
    {
        result[i] = bytes[i] != 0;
        i += 1;
    }
    result
}

pub fn is_visible_char(byte: u8) -> (r: bool)
    ensures
        r == visible_char(byte),
{
    0x21 <= byte && byte <= 0x7E
}

fn is_separator(byte: u8) -> (r: bool)
    ensures
        r == separator(byte),
{
    byte == 0x28 || byte == 0x29 || byte == 0x3C || byte == 0x3E || byte == 0x40 || byte == 0x2C
        || byte == 0x3B || byte == 0x3A || byte == 0x5C || byte == 0x22 || byte == 0x2F || byte
        == 0x5B || byte == 0x5D || byte == 0x3F || byte == 0x3D || byte == 0x7B || byte == 0x7D
        || byte == 0x20 || byte == 0x09
}

pub fn is_token_char(byte: u8) -> (r: bool)
    ensures
        r == token_char(byte),
{
    byte < 128 && !(byte < 32 || byte == 127) && !is_separator(byte)
}

pub fn is_token(bytes: &[u8]) -> (r: bool)
    ensures
        r == token_octets(bytes@),
{
    let mut i: usize = 0;
    while i < bytes.len()
        invariant
            i <= bytes.len(),
            forall|j: int| 0 <= j < i ==> token_char(#[trigger] bytes@[j]),
        decreases bytes.len() - i,
    {
        if !is_token_char(bytes[i]) {
            return false;
        }
        i += 1;
    }
    true
}

pub fn is_vchar_sequence(bytes: &[u8]) -> (r: bool)
    ensures
        r == visible_octets(bytes@),
{
    let mut i: usize = 0;
    while i < bytes.len()
        invariant
            i <= bytes.len(),
            forall|j: int| 0 <= j < i ==> visible_char(#[trigger] bytes@[j]),
        decreases bytes.len() - i,
    {
        if !is_visible_char(bytes[i]) {
            return false;
        }
        i += 1;
    }
    true
}

pub fn is_vchar_sequence_with_white_space(bytes: &[u8]) -> (r: bool)
    ensures
        r == visible_or_blank_octets(bytes@),
{
    let mut i: usize = 0;
    while i < bytes.len()
        invariant
            i <= bytes.len(),
            forall|j: int|
                0 <= j < i ==> {
                    let b = #[trigger] bytes@[j];
                    visible_char(b) || b == 32 || b == 9
                },
        decreases bytes.len() - i,
    {
        let b = bytes[i];
        let is_legal = is_visible_char(b) || is_space(b) || is_horizontal_tab(b);
        if !is_legal {
            return false;
        }
        i += 1;
    }
    true
}

pub fn is_cr(byte: u8) -> (r: bool)
    ensures
        r == (byte == 13),
{
    byte == 13
}

pub fn is_lf(byte: u8) -> (r: bool)
    ensures
        r == (byte == 10),
{
    byte == 10
}

pub fn is_space(byte: u8) -> (r: bool)
    ensures
        r == (byte == 32),
{
    byte == 32
}

pub fn is_horizontal_tab(byte: u8) -> (r: bool)
    ensures
        r == (byte == 9),
{
    byte == 9
}

pub fn is_upper_alpha(byte: u8) -> (r: bool)
    ensures
        r == upper_alpha(byte),
{
    65 <= byte && byte <= 90
}

pub fn to_lower_case(byte: u8) -> (r: u8)
    ensures
        r == lower_case(byte),
{
    if is_upper_alpha(byte) {
        byte + 32
    } else {
        byte
    }
}

pub fn is_hex_digit(byte: u8) -> (r: bool)
    ensures
        r == hex_digit(byte),
{
    (48 <= byte && byte <= 57) || (65 <= byte && byte <= 70) || (97 <= byte && byte <= 102)
}

/// Replaces each run of SP and HT in `text` by one SP.
///
/// Trusted: the body compiles `pattern` with `regex::Regex::new` and calls
/// `Regex::replace_all`. The contract is stated for one pattern only, a
/// character class of SP and HT followed by `+`, which compiles and whose
/// matches are the maximal runs of these two characters; `replace_all` puts the
/// replacement, which holds no `$`, in the place of each.
#[verifier::external_body]
fn regex_replace_all(pattern: &str, text: &str, replacement: &str) -> (r: String)
    requires
        pattern@ == "[ \t]+"@,
        replacement@ == " "@,
    ensures
        r@ == collapse_blanks(text@),
{
    regex::Regex::new(pattern).unwrap().replace_all(text, replacement).into_owned()
}

/// Replaces each run of SP and HT in `s` by one SP.
pub fn replace_white_space(s: &str) -> (r: String)
    ensures
        r@ == collapse_blanks(s@),
{
    regex_replace_all("[ \t]+", s, " ")
}

} // verus!
