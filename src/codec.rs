//! Storage keys: built from pallet, field and map-key names, and read back.

use vstd::prelude::*;
use vstd::utf8::{decode_utf8, encode_utf8, valid_utf8};

use crate::errors::Error;
use crate::hashing::{blake2_128, blake2_128_of, twox_128, twox_128_of, twox_64, twox_64_of};
use crate::hexcode::{
    hex_decode, hex_decode_of, hex_encode, hex_encode_of, hex_error_text, is_hex_text,
    lemma_hex_round_trip,
    text_bytes, utf8_to_string,
};

verus! {

/// The view of an optional string.
pub open spec fn opt_view(o: Option<String>) -> Option<Seq<char>> {
    match o {
        Some(s) => Some(s@),
        None => None,
    }
}

/// The twox-64-concat key of a text: its digest, then the text itself, both in hex.
pub open spec fn twox_64_concat_of(k: Seq<char>) -> Seq<char> {
    hex_encode_of(twox_64_of(encode_utf8(k))@) + hex_encode_of(encode_utf8(k))
}

/// The blake2-128-concat key of a text: its digest, then the text itself, both in hex.
pub open spec fn blake2_128_concat_of(k: Seq<char>) -> Seq<char> {
    hex_encode_of(blake2_128_of(encode_utf8(k))@) + hex_encode_of(encode_utf8(k))
}

/// The hex text of a text's UTF-8 bytes: the identity scheme.
pub open spec fn identity_of(k: Seq<char>) -> Seq<char> {
    hex_encode_of(encode_utf8(k))
}

/// The hex text of a name's twox-128 digest: how pallet and field names enter a key.
pub open spec fn twox_128_name_of(k: Seq<char>) -> Seq<char> {
    hex_encode_of(twox_128_of(encode_utf8(k))@)
}

/// The text that a hex text spells: its bytes read as UTF-8. None when it is not hex, or
/// its bytes are not UTF-8.
pub open spec fn hex_text_of(t: Seq<char>) -> Option<Seq<char>> {
    if is_hex_text(t) && valid_utf8(hex_decode_of(t)) {
        Some(decode_utf8(hex_decode_of(t)))
    } else {
        None
    }
}

/// Reading back a concat key with a digest of `width` hex digits: the text that the rest
/// spells, when re-encoding it gives the same digest.
pub open spec fn concat_decode_of(
    s: Seq<char>,
    width: nat,
    encoded: spec_fn(Seq<char>) -> Seq<char>,
) -> Option<Seq<char>> {
    if s.len() >= width {
        match hex_text_of(s.subrange(width as int, s.len() as int)) {
            Some(k) => {
                let e = encoded(k);
                if e.len() >= width && e.subrange(0, width as int) == s.subrange(0, width as int) {
                    Some(k)
                } else {
                    None
                }
            },
            None => None,
        }
    } else {
        None
    }
}

pub open spec fn twox_64_concat_decode_of(s: Seq<char>) -> Option<Seq<char>> {
    concat_decode_of(s, 16, |k: Seq<char>| twox_64_concat_of(k))
}

pub open spec fn blake2_128_concat_decode_of(s: Seq<char>) -> Option<Seq<char>> {
    concat_decode_of(s, 32, |k: Seq<char>| blake2_128_concat_of(k))
}

/// Encodes a text as a twox-64-concat map key.
pub fn twox_64_concat_encode(s: &str) -> (r: String)
    ensures
        r@ == twox_64_concat_of(s@),
{
    let bytes = text_bytes(s);
    let mut out = hex_encode(twox_64(bytes).as_slice());
    let tail = hex_encode(bytes);
    out.append(tail.as_str());
    out
}

/// Encodes a text as a blake2-128-concat map key.
pub fn blake2_128_concat_encode(s: &str) -> (r: String)
    ensures
        r@ == blake2_128_concat_of(s@),
{
    let bytes = text_bytes(s);
    let mut out = hex_encode(blake2_128(bytes).as_slice());
    let tail = hex_encode(bytes);
    out.append(tail.as_str());
    out
}

/// Whether `s` begins with `prefix`.
pub fn starts_with(s: &str, prefix: &str) -> (r: bool)
    ensures
        r == (prefix@.len() <= s@.len() && s@.subrange(0, prefix@.len() as int) == prefix@),
{
    let n = prefix.unicode_len();
    if n > s.unicode_len() {
        return false;
    }
    let mut i: usize = 0;
    while i < n
        invariant
            n == prefix@.len(),
            n <= s@.len(),
            i <= n,
            forall|j: int| 0 <= j < i ==> s@[j] == prefix@[j],
        decreases n - i,
    {
        if s.get_char(i) != prefix.get_char(i) {
            return false;
        }
        i = i + 1;
    }
    assert(s@.subrange(0, n as int) =~= prefix@);
    true
}

/// Whether two texts are equal.
pub fn text_eq(a: &str, b: &str) -> (r: bool)
    ensures
        r == (a@ == b@),
{
    let r = a.unicode_len() == b.unicode_len() && starts_with(a, b);
    proof {
        if a@.len() == b@.len() {
            assert(a@.subrange(0, b@.len() as int) =~= a@);
        }
    }
    r
}

/// The text that a hex text spells, if it is hex of UTF-8 bytes.
pub fn hex_text(t: &str) -> (r: Option<String>)
    ensures
        opt_view(r) == hex_text_of(t@),
{
    match hex_decode(t) {
        Ok(v) => utf8_to_string(v.as_slice()),
        Err(_) => None,
    }
}

/// Reads back a twox-64-concat key: the embedded text, if its digest matches.
pub fn twox_64_concat_decode(s: &str) -> (r: Option<String>)
    ensures
        opt_view(r) == twox_64_concat_decode_of(s@),
{
    let n = s.unicode_len();
    if n >= 16 {
        let first = s.substring_char(0, 16);
        let last = s.substring_char(16, n);
        let k = match hex_text(last) {
            Some(k) => k,
            None => return None,
        };
        let e = twox_64_concat_encode(k.as_str());
        if starts_with(e.as_str(), first) {
            return Some(k);
        }
    }
    None
}

/// Reads back a blake2-128-concat key: the embedded text, if its digest matches.
pub fn black2_128_concat_decode(s: &str) -> (r: Option<String>)
    ensures
        opt_view(r) == blake2_128_concat_decode_of(s@),
{
    let n = s.unicode_len();
    if n >= 32 {
        let first = s.substring_char(0, 32);
        let last = s.substring_char(32, n);
        let k = match hex_text(last) {
            Some(k) => k,
            None => return None,
        };
        let e = blake2_128_concat_encode(k.as_str());
        if starts_with(e.as_str(), first) {
            return Some(k);
        }
    }
    None
}

/// A twox-64-concat key reads back as the text it was made of.
pub proof fn lemma_twox_64_concat_round_trip(k: Seq<char>)
    ensures
        twox_64_concat_decode_of(twox_64_concat_of(k)) == Some(k),
{
    lemma_concat_round_trip(k, twox_64_of(encode_utf8(k))@, 16);
}

/// A blake2-128-concat key reads back as the text it was made of.
pub proof fn lemma_blake2_128_concat_round_trip(k: Seq<char>)
    ensures
        blake2_128_concat_decode_of(blake2_128_concat_of(k)) == Some(k),
{
    lemma_concat_round_trip(k, blake2_128_of(encode_utf8(k))@, 32);
}

proof fn lemma_concat_round_trip(k: Seq<char>, digest: Seq<u8>, width: nat)
    requires
        2 * digest.len() == width,
    ensures
        ({
            let s = hex_encode_of(digest) + hex_encode_of(encode_utf8(k));
            &&& s.len() >= width
            &&& hex_text_of(s.subrange(width as int, s.len() as int)) == Some(k)
            &&& s.subrange(0, width as int) == hex_encode_of(digest)
        }),
{
    let b = encode_utf8(k);
    let s = hex_encode_of(digest) + hex_encode_of(b);
    assert(s.subrange(width as int, s.len() as int) =~= hex_encode_of(b));
    assert(s.subrange(0, width as int) =~= hex_encode_of(digest));
    lemma_hex_round_trip(b);
    vstd::utf8::encode_utf8_valid_utf8(k);
    vstd::utf8::encode_utf8_decode_utf8(k);
}

} // verus!

verus! {

/// The names whose twox-128 digests the decoder recognises, by the hex of that digest.
pub open spec fn twox_name_of(h: Seq<char>) -> Option<Seq<char>> {
    if h == "26aa394eea5630e07c48ae0c9558cef7"@ {
        Some("System"@)
    } else if h == "b99d880ec681799c0cf30e8886371da9"@ {
        Some("Account"@)
    } else {
        None
    }
}

/// The names whose blake2-128 digests the decoder recognises: none are seeded.
pub open spec fn blake2_name_of(h: Seq<char>) -> Option<Seq<char>> {
    None
}

/// Looks up the name whose twox-128 digest has the hex text `h`.
pub fn pallet_decode(h: &str) -> (r: Option<String>)
    ensures
        opt_view(r) == twox_name_of(h@),
{
    if text_eq(h, "26aa394eea5630e07c48ae0c9558cef7") {
        Some("System".to_owned())
    } else if text_eq(h, "b99d880ec681799c0cf30e8886371da9") {
        Some("Account".to_owned())
    } else {
        None
    }
}

/// The name whose twox-128 digest has the hex text `h`, or `h` itself.
pub fn field_decode(h: &str) -> (r: String)
    ensures
        r@ == match twox_name_of(h@) {
            Some(n) => n,
            None => h@,
        },
{
    match pallet_decode(h) {
        Some(n) => n,
        None => h.to_owned(),
    }
}

/// Looks up the name whose blake2-128 digest has the hex text `h`.
fn blake2_name_decode(h: &str) -> (r: Option<String>)
    ensures
        opt_view(r) == blake2_name_of(h@),
{
    None
}

/// A recognised digest, shown as its name, the separator, then the rest of the key.
pub open spec fn named_key_of(name: Seq<char>, rest: Seq<char>) -> Seq<char> {
    name + "∥"@ + rest
}

/// The map key of a storage key, read from what follows pallet and field: the first
/// reading that works, in this order.
pub open spec fn map_key_of(t: Seq<char>, keep_unsolved: bool) -> Option<Seq<char>> {
    if t.len() == 0 {
        None
    } else if twox_64_concat_decode_of(t) is Some {
        twox_64_concat_decode_of(t)
    } else if blake2_128_concat_decode_of(t) is Some {
        blake2_128_concat_decode_of(t)
    } else if t.len() >= 32 && blake2_name_of(t.subrange(0, 32)) is Some {
        Some(named_key_of(blake2_name_of(t.subrange(0, 32))->0, t.subrange(32, t.len() as int)))
    } else if 32 <= t.len() < 64 && twox_name_of(t.subrange(0, 32)) is Some {
        Some(named_key_of(twox_name_of(t.subrange(0, 32))->0, t.subrange(32, t.len() as int)))
    } else if keep_unsolved {
        Some(t)
    } else {
        hex_text_of(t)
    }
}

/// The pallet, field and map key that a storage key reads as.
pub open spec fn semantic_decode_of(s: Seq<char>, keep_unsolved: bool) -> (
    Option<Seq<char>>,
    Option<Seq<char>>,
    Option<Seq<char>>,
) {
    if s.len() < 32 {
        (None, None, None)
    } else {
        let pallet = twox_name_of(s.subrange(0, 32));
        let tail = s.subrange(32, s.len() as int);
        if tail.len() < 32 {
            if keep_unsolved {
                (pallet, Some(tail), None)
            } else {
                (pallet, None, None)
            }
        } else {
            let f = tail.subrange(0, 32);
            let field = match twox_name_of(f) {
                Some(n) => n,
                None => f,
            };
            (pallet, Some(field), map_key_of(tail.subrange(32, tail.len() as int), keep_unsolved))
        }
    }
}

/// Shows `name`, the separator and `rest` as one text.
fn named_key(name: String, rest: &str) -> (r: String)
    ensures
        r@ == named_key_of(name@, rest@),
{
    let mut out = name;
    out.append("∥");
    out.append(rest);
    out
}

/// Reads the map key that follows pallet and field in a storage key.
fn map_key_decode(t: &str, keep_unsolved: bool) -> (r: Option<String>)
    ensures
        opt_view(r) == map_key_of(t@, keep_unsolved),
{
    let n = t.unicode_len();
    if n == 0 {
        return None;
    }
    let k = twox_64_concat_decode(t);
    if k.is_some() {
        return k;
    }
    let k = black2_128_concat_decode(t);
    if k.is_some() {
        return k;
    }
    if n >= 32 {
        let head = t.substring_char(0, 32);
        let rest = t.substring_char(32, n);
        if let Some(name) = blake2_name_decode(head) {
            return Some(named_key(name, rest));
        }
        if n < 64 {
            if let Some(name) = pallet_decode(head) {
                return Some(named_key(name, rest));
            }
        }
    }
    if keep_unsolved {
        return Some(t.to_owned());
    }
    hex_text(t)
}

/// Reads a storage key as its pallet name, field name and map key.
///
/// A digest that no known name has leaves the pallet out, and stands for itself as the
/// field. With `keep_unsolve`, a field or map key that cannot be read is kept as hex.
pub fn storage_key_semantic_decode(s: &str, keep_unsolve: bool) -> (r: (
    Option<String>,
    Option<String>,
    Option<String>,
))
    ensures
        (opt_view(r.0), opt_view(r.1), opt_view(r.2)) == semantic_decode_of(s@, keep_unsolve),
{
    let n = s.unicode_len();
    if n < 32 {
        return (None, None, None);
    }
    let p = s.substring_char(0, 32);
    let tail = s.substring_char(32, n);
    let pallet_name = pallet_decode(p);
    let tn = tail.unicode_len();
    if tn < 32 {
        if keep_unsolve {
            return (pallet_name, Some(tail.to_owned()), None);
        } else {
            return (pallet_name, None, None);
        }
    }
    let f = tail.substring_char(0, 32);
    let rest = tail.substring_char(32, tn);
    let field_name = field_decode(f);
    let key = map_key_decode(rest, keep_unsolve);
    (pallet_name, Some(field_name), key)
}

} // verus!

verus! {

/// What a storage key is built from: a pallet name, then optionally a field name, keys
/// of a map under one or more schemes, and second keys of a double map.
pub struct KeyRequest {
    pub pallet: String,
    pub field: Option<String>,
    pub twox_64_concat: Option<String>,
    pub blake2_128_concat: Option<String>,
    pub identity: Option<String>,
    pub twox_64_concat_2nd: Option<String>,
    pub blake2_128_concat_2nd: Option<String>,
    pub identity_2nd: Option<String>,
}

/// The encoding of an optional part of a key: nothing when it is absent.
pub open spec fn part_of(o: Option<String>, f: spec_fn(Seq<char>) -> Seq<char>) -> Seq<char> {
    match o {
        Some(s) => f(s@),
        None => Seq::<char>::empty(),
    }
}

impl KeyRequest {
    /// A first map key is given, under some scheme.
    pub open spec fn has_first_key(&self) -> bool {
        self.twox_64_concat is Some || self.blake2_128_concat is Some || self.identity is Some
    }

    /// A second map key is given, under some scheme.
    pub open spec fn has_second_key(&self) -> bool {
        self.twox_64_concat_2nd is Some || self.blake2_128_concat_2nd is Some
            || self.identity_2nd is Some
    }

    /// A map key is given without the field that holds the map.
    pub open spec fn lacks_field(&self) -> bool {
        self.has_first_key() && self.field is None
    }

    /// A second key is given without a first one.
    pub open spec fn lacks_first_key(&self) -> bool {
        !self.has_first_key() && self.has_second_key()
    }

    /// The hex storage key that the request describes.
    pub open spec fn key_of(&self) -> Seq<char> {
        twox_128_name_of(self.pallet@) + part_of(self.field, |k| twox_128_name_of(k)) + part_of(
            self.twox_64_concat,
            |k| twox_64_concat_of(k),
        ) + part_of(self.blake2_128_concat, |k| blake2_128_concat_of(k)) + part_of(
            self.identity,
            |k| identity_of(k),
        ) + part_of(self.twox_64_concat_2nd, |k| twox_64_concat_of(k)) + part_of(
            self.blake2_128_concat_2nd,
            |k| blake2_128_concat_of(k),
        ) + part_of(self.identity_2nd, |k| identity_of(k))
    }
}

/// The hex of a name's twox-128 digest.
pub fn twox_128_name(s: &str) -> (r: String)
    ensures
        r@ == twox_128_name_of(s@),
{
    hex_encode(twox_128(text_bytes(s)).as_slice())
}

/// The hex of a text's bytes: the identity scheme.
pub fn identity_encode(s: &str) -> (r: String)
    ensures
        r@ == identity_of(s@),
{
    hex_encode(text_bytes(s))
}

/// The error for a map key given without its field.
fn field_required() -> (r: Error)
    ensures
        r matches Error::OptionValueIncorrect(o, _) && o@ == "field"@,
{
    Error::OptionValueIncorrect(
        "field".to_owned(),
        "a field name is required to build a key in that field".to_owned(),
    )
}

/// The error for a second map key given without a first one.
fn first_key_required() -> (r: Error)
    ensures
        r matches Error::OptionValueIncorrect(o, _) && o@
            == "twox 64 concat/black2 128 concat/identity"@,
{
    Error::OptionValueIncorrect(
        "twox 64 concat/black2 128 concat/identity".to_owned(),
        "one of these options is required to build a second key of a double map".to_owned(),
    )
}

/// Builds the hex storage key that a request describes.
pub fn get_storage_key_hash(req: &KeyRequest) -> (r: Result<String, Error>)
    ensures
        r is Err <==> req.lacks_field() || req.lacks_first_key(),
        req.lacks_field() ==> (r matches Err(Error::OptionValueIncorrect(o, _)) && o@
            == "field"@),
        req.lacks_first_key() ==> (r matches Err(Error::OptionValueIncorrect(o, _)) && o@
            == "twox 64 concat/black2 128 concat/identity"@),
        r matches Ok(k) ==> k@ == req.key_of(),
{
    let mut out = twox_128_name(req.pallet.as_str());
    if let Some(f) = &req.field {
        out.append(twox_128_name(f.as_str()).as_str());
    }
    let first_key = req.twox_64_concat.is_some() || req.blake2_128_concat.is_some()
        || req.identity.is_some();
    if first_key && req.field.is_none() {
        return Err(field_required());
    }
    if let Some(k) = &req.twox_64_concat {
        out.append(twox_64_concat_encode(k.as_str()).as_str());
    }
    if let Some(k) = &req.blake2_128_concat {
        out.append(blake2_128_concat_encode(k.as_str()).as_str());
    }
    if let Some(k) = &req.identity {
        out.append(identity_encode(k.as_str()).as_str());
    }
    let second_key = req.twox_64_concat_2nd.is_some() || req.blake2_128_concat_2nd.is_some()
        || req.identity_2nd.is_some();
    if second_key && !first_key {
        return Err(first_key_required());
    }
    if let Some(k) = &req.twox_64_concat_2nd {
        out.append(twox_64_concat_encode(k.as_str()).as_str());
    }
    if let Some(k) = &req.blake2_128_concat_2nd {
        out.append(blake2_128_concat_encode(k.as_str()).as_str());
    }
    if let Some(k) = &req.identity_2nd {
        out.append(identity_encode(k.as_str()).as_str());
    }
    proof {
        assert(out@ =~= req.key_of());
    }
    Ok(out)
}

/// The 32-byte root hash that a `0x`-prefixed hex text spells, if it spells one.
pub open spec fn state_hash_of(raw: Seq<char>) -> Option<Seq<u8>> {
    if raw.len() >= 2 && raw.subrange(0, 2) == "0x"@ {
        let rest = raw.subrange(2, raw.len() as int);
        if is_hex_text(rest) && rest.len() == 64 {
            Some(hex_decode_of(rest))
        } else {
            None
        }
    } else {
        None
    }
}

/// Reads a state root hash written as `0x` and 64 hex digits.
pub fn hex_str_to_state_hash(raw: &str) -> (r: Result<Vec<u8>, Error>)
    ensures
        r is Ok <==> state_hash_of(raw@) is Some,
        r matches Ok(h) ==> Some(h@) == state_hash_of(raw@) && h@.len() == 32,
        r matches Err(e) ==> (e matches Error::OptionValueIncorrect(o, _) && o@
            == "state root hash"@),
        !(raw@.len() >= 2 && raw@.subrange(0, 2) == "0x"@) ==> (r matches Err(
            Error::OptionValueIncorrect(_, why),
        ) && why@ == "the 0x prefix is missing"@),
        raw@.len() >= 2 && raw@.subrange(0, 2) == "0x"@ && is_hex_text(
            raw@.subrange(2, raw@.len() as int),
        ) && raw@.len() != 66 ==> (r matches Err(Error::OptionValueIncorrect(_, why)) && why@
            == "size is not correct"@),
{
    proof {
        reveal_strlit("0x");
    }
    if !starts_with(raw, "0x") {
        return Err(
            Error::OptionValueIncorrect(
                "state root hash".to_owned(),
                "the 0x prefix is missing".to_owned(),
            ),
        );
    }
    let rest = raw.substring_char(2, raw.unicode_len());
    match hex_decode(rest) {
        Ok(v) => {
            if v.len() == 32 {
                Ok(v)
            } else {
                Err(
                    Error::OptionValueIncorrect(
                        "state root hash".to_owned(),
                        "size is not correct".to_owned(),
                    ),
                )
            }
        },
        Err(e) => Err(Error::OptionValueIncorrect("state root hash".to_owned(), hex_error_text(&e))),
    }
}

} // verus!
