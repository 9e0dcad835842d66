//! Nibble paths: a hex string read one half-byte per character.

use vstd::prelude::*;

verus! {

/// Whether `c` is a hex digit, in either case.
pub open spec fn is_hex_char(c: char) -> bool {
    (48 <= c as u32 && c as u32 <= 57) || (97 <= c as u32 && c as u32 <= 102) || (65 <= c
        as u32 && c as u32 <= 70)
}

/// Whether `c` is a digit or a lower-case hex letter.
pub open spec fn is_lower_hex_char(c: char) -> bool {
    (48 <= c as u32 && c as u32 <= 57) || (97 <= c as u32 && c as u32 <= 102)
}

/// The 4-bit value of a hex digit.
pub open spec fn nibble_of(c: char) -> nat {
    if c as u32 <= 57 {
        (c as u32 - 48) as nat
    } else if c as u32 >= 97 {
        (c as u32 - 87) as nat
    } else {
        (c as u32 - 55) as nat
    }
}

/// The lower-case hex digit of a value below 16.
pub open spec fn hex_char_of(n: nat) -> char {
    if n < 10 {
        ((48 + n) as u32) as char
    } else {
        ((87 + n) as u32) as char
    }
}

pub open spec fn all_hex(s: Seq<char>) -> bool {
    forall|i: int| 0 <= i < s.len() ==> is_hex_char(#[trigger] s[i])
}

pub open spec fn all_lower_hex(s: Seq<char>) -> bool {
    forall|i: int| 0 <= i < s.len() ==> is_lower_hex_char(#[trigger] s[i])
}

/// A nibble path: every element below 16.
pub open spec fn is_nibble_path(p: Seq<u8>) -> bool {
    forall|i: int| 0 <= i < p.len() ==> #[trigger] p[i] < 16
}

/// The nibble path that a hex string reads as.
pub open spec fn nibbles_of(s: Seq<char>) -> Seq<u8> {
    s.map_values(|c: char| nibble_of(c) as u8)
}

/// The lower-case hex string of a nibble path.
pub open spec fn render_of(p: Seq<u8>) -> Seq<char> {
    p.map_values(|n: u8| hex_char_of(n as nat))
}

/// Helper for a child index: its position in a branch, from a hex digit.
pub fn map_char_to_pos(c: char) -> (r: usize)
    requires
        is_hex_char(c),
    ensures
        r == nibble_of(c),
        r < 16,
{
    let v = c as u32;
    if v <= 57 {
        (v - 48) as usize
    } else if v >= 97 {
        (v - 87) as usize
    } else {
        (v - 55) as usize
    }
}

/// Helper for a child index: the lower-case hex digit of a position.
pub fn map_pos_to_char(p: usize) -> (r: char)
    requires
        p < 16,
    ensures
        r == hex_char_of(p as nat),
        is_lower_hex_char(r),
        nibble_of(r) == p,
{
    let v: u8 = if p < 10 {
        48 + p as u8
    } else {
        87 + p as u8
    };
    v as char
}

/// Reads a hex string as a nibble path; `None` when a character is not a hex digit.
pub fn parse_nibbles(s: &str) -> (r: Option<Vec<u8>>)
    ensures
        r is Some <==> all_hex(s@),
        r matches Some(p) ==> p@ == nibbles_of(s@) && is_nibble_path(p@),
{
    let n = s.unicode_len();
    let mut out: Vec<u8> = Vec::new();
    let mut i: usize = 0;
    while i < n
        invariant
            n == s@.len(),
            i <= n,
            out@ == nibbles_of(s@.subrange(0, i as int)),
            all_hex(s@.subrange(0, i as int)),
        decreases n - i,
    {
        let c = s.get_char(i);
        if !is_hex_digit(c) {
            assert(!is_hex_char(s@[i as int]));
            return None;
        }
        let v = map_char_to_pos(c);
        out.push(v as u8);
        proof {
            assert(s@.subrange(0, i + 1) =~= s@.subrange(0, i as int).push(c));
        }
        i = i + 1;
    }
    proof {
        assert(s@.subrange(0, n as int) =~= s@);
    }
    Some(out)
}

/// Whether `c` is a hex digit, in either case.
pub fn is_hex_digit(c: char) -> (r: bool)
    ensures
        r == is_hex_char(c),
{
    let v = c as u32;
    (48 <= v && v <= 57) || (97 <= v && v <= 102) || (65 <= v && v <= 70)
}

/// Pushes one character onto a string.
///
/// Relies on `String::push`: the character is appended at the end.
#[verifier::external_body]
pub(crate) fn push_char(s: &mut String, c: char)
    ensures
        final(s)@ == old(s)@.push(c),
{
    s.push(c)
}

/// Writes a nibble path as a lower-case hex string.
pub fn render_nibbles(p: &[u8]) -> (r: String)
    requires
        is_nibble_path(p@),
    ensures
        r@ == render_of(p@),
        all_lower_hex(r@),
{
    let mut out = String::new();
    let mut i: usize = 0;
    while i < p.len()
        invariant
            i <= p@.len(),
            is_nibble_path(p@),
            out@ == render_of(p@.subrange(0, i as int)),
            all_lower_hex(out@),
        decreases p@.len() - i,
    {
        let c = map_pos_to_char(p[i] as usize);
        push_char(&mut out, c);
        proof {
            assert(p@.subrange(0, i + 1) =~= p@.subrange(0, i as int).push(p@[i as int]));
        }
        i = i + 1;
    }
    proof {
        assert(p@.subrange(0, p@.len() as int) =~= p@);
    }
    out
}

/// Rendering the path that a lower-case hex string reads as gives back that string.
pub proof fn lemma_render_parse(s: Seq<char>)
    requires
        all_lower_hex(s),
    ensures
        all_hex(s),
        render_of(nibbles_of(s)) == s,
        is_nibble_path(nibbles_of(s)),
{
    assert forall|i: int| 0 <= i < s.len() implies render_of(nibbles_of(s))[i] == s[i]
        && nibbles_of(s)[i] < 16 by {
        let c = s[i];
        assert(is_lower_hex_char(c));
        vstd::utf8::char_u32_cast(c, c as u32);
    }
    assert(render_of(nibbles_of(s)) =~= s);
}

} // verus!
