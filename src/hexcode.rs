//! Hex text of byte strings, and the UTF-8 reading of byte strings.

use vstd::prelude::*;
use vstd::utf8::{decode_utf8, encode_utf8, valid_utf8};

use crate::nibble::{all_hex, all_lower_hex, hex_char_of, is_lower_hex_char, nibble_of};

verus! {

/// The lower-case hex text of a byte string: two digits per byte, high half first.
pub open spec fn hex_encode_of(b: Seq<u8>) -> Seq<char> {
    Seq::new(
        2 * b.len(),
        |i: int|
            if i % 2 == 0 {
                hex_char_of((b[i / 2] / 16) as nat)
            } else {
                hex_char_of((b[i / 2] % 16) as nat)
            },
    )
}

/// The bytes that a hex text of even length spells, two digits per byte.
pub open spec fn hex_decode_of(s: Seq<char>) -> Seq<u8> {
    Seq::new(s.len() / 2, |i: int| (nibble_of(s[2 * i]) * 16 + nibble_of(s[2 * i + 1])) as u8)
}

/// Whether a text is hex that decodes: an even number of hex digits.
pub open spec fn is_hex_text(s: Seq<char>) -> bool {
    s.len() % 2 == 0 && all_hex(s)
}

pub proof fn lemma_hex_char_nibble(n: nat)
    requires
        n < 16,
    ensures
        nibble_of(hex_char_of(n)) == n,
        is_lower_hex_char(hex_char_of(n)),
{
}

/// Hex text is lower-case hex digits, and decodes back to the bytes it was made of.
pub proof fn lemma_hex_round_trip(b: Seq<u8>)
    ensures
        all_lower_hex(hex_encode_of(b)),
        is_hex_text(hex_encode_of(b)),
        hex_decode_of(hex_encode_of(b)) == b,
{
    let s = hex_encode_of(b);
    assert forall|i: int| 0 <= i < s.len() implies is_lower_hex_char(#[trigger] s[i]) by {
        if i % 2 == 0 {
            lemma_hex_char_nibble((b[i / 2] / 16) as nat);
        } else {
            lemma_hex_char_nibble((b[i / 2] % 16) as nat);
        }
    }
    assert forall|i: int| 0 <= i < b.len() implies #[trigger] hex_decode_of(s)[i] == b[i] by {
        assert((2 * i) / 2 == i);
        assert((2 * i + 1) / 2 == i);
        assert((2 * i) % 2 == 0);
        assert((2 * i + 1) % 2 == 1);
        lemma_hex_char_nibble((b[i] / 16) as nat);
        lemma_hex_char_nibble((b[i] % 16) as nat);
    }
    assert(hex_decode_of(s) =~= b);
}

/// The declared error of the hex decoder.
#[verifier::external_type_specification]
#[verifier::external_body]
pub struct ExFromHexError(hex::FromHexError);

/// Relies on `hex::encode`: two lower-case digits per byte, high half first.
#[verifier::external_body]
pub(crate) fn hex_encode(b: &[u8]) -> (r: String)
    ensures
        r@ == hex_encode_of(b@),
{
    hex::encode(b)
}

/// Relies on `hex::decode`: it accepts exactly an even number of hex digits of either
/// case, and yields one byte per pair of digits.
#[verifier::external_body]
pub(crate) fn hex_decode(s: &str) -> (r: Result<Vec<u8>, hex::FromHexError>)
    ensures
        r is Ok <==> is_hex_text(s@),
        r matches Ok(v) ==> v@ == hex_decode_of(s@),
{
    hex::decode(s)
}

/// Relies on the `Display` text of `hex::FromHexError`.
#[verifier::external_body]
pub(crate) fn hex_error_text(e: &hex::FromHexError) -> (r: String) {
    e.to_string()
}

/// Relies on `std::str::from_utf8`: it accepts exactly the valid UTF-8 byte strings and
/// reads them as their characters.
#[verifier::external_body]
pub(crate) fn utf8_to_string(b: &[u8]) -> (r: Option<String>)
    ensures
        r is Some <==> valid_utf8(b@),
        r matches Some(s) ==> s@ == decode_utf8(b@),
{
    std::str::from_utf8(b).ok().map(|s| s.to_owned())
}

/// The bytes of a text's UTF-8 encoding.
pub fn text_bytes(s: &str) -> (r: &[u8])
    ensures
        r@ == encode_utf8(s@),
{
    s.as_bytes()
}

} // verus!
