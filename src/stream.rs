//! Decoding the storage keys that appear as hex literals in free text.

use vstd::prelude::*;

use crate::codec::{opt_view, semantic_decode_of, storage_key_semantic_decode};
use crate::errors::Error;
use crate::nibble::{all_hex, is_hex_digit, is_lower_hex_char};

verus! {

/// What a hex literal in text looks like: 32 or more lower-case hex digits.
pub const HEXAL_LITERAL_FORMAT: &'static str = "[0-9a-f]{32,}";

pub open spec fn texts_view(v: Seq<String>) -> Seq<Seq<char>> {
    v.map_values(|s: String| s@)
}

/// The run of text from `start` to `end`, if it is long enough to be a hex literal.
pub open spec fn literal_between(t: Seq<char>, start: int, end: int) -> Seq<Seq<char>> {
    if end - start >= 32 {
        seq![t.subrange(start, end)]
    } else {
        Seq::empty()
    }
}

/// The hex literals of `t` from position `i` on, left to right, where the current run of
/// lower-case hex digits began at `start`.
pub open spec fn hex_runs_from(t: Seq<char>, i: int, start: int) -> Seq<Seq<char>>
    decreases t.len() - i,
{
    if i >= t.len() {
        literal_between(t, start, i)
    } else if is_lower_hex_char(t[i]) {
        hex_runs_from(t, i + 1, start)
    } else {
        literal_between(t, start, i) + hex_runs_from(t, i + 1, i + 1)
    }
}

/// The hex literals of a text: its maximal runs of 32 or more lower-case hex digits, left
/// to right.
pub open spec fn hex_literals_of(t: Seq<char>) -> Seq<Seq<char>> {
    hex_runs_from(t, 0, 0)
}

/// Relies on `regex::Regex::new` and `Regex::find_iter`: the expression `[0-9a-f]{32,}`
/// compiles, and its leftmost-first, greedy, non-overlapping matches are the maximal runs
/// of 32 or more lower-case hex digits, in order.
#[verifier::external_body]
fn find_matches(pattern: &str, text: &str) -> (r: Option<Vec<String>>)
    requires
        pattern@ == HEXAL_LITERAL_FORMAT@,
    ensures
        r is Some,
        r matches Some(v) ==> texts_view(v@) == hex_literals_of(text@),
{
    let re = regex::Regex::new(pattern).ok()?;
    Some(re.find_iter(text).map(|m| m.as_str().to_owned()).collect())
}

pub open spec fn or_empty(o: Option<Seq<char>>) -> Seq<char> {
    match o {
        Some(s) => s,
        None => Seq::empty(),
    }
}

/// A storage key shown as `pallet > field > key`, with parts that cannot be read left
/// empty, and the field or key kept as hex where it cannot be resolved.
pub open spec fn describe_of(key: Seq<char>) -> Seq<char> {
    let d = semantic_decode_of(key, true);
    or_empty(d.0) + " > "@ + or_empty(d.1) + " > "@ + or_empty(d.2)
}

/// A hex literal shown as the storage key it reads as, when its pallet is known.
pub open spec fn literal_summary_of(lit: Seq<char>) -> Seq<char> {
    if semantic_decode_of(lit, true).0 is Some {
        describe_of(lit)
    } else {
        Seq::empty()
    }
}

pub open spec fn literals_summary_of(lits: Seq<Seq<char>>) -> Seq<char>
    decreases lits.len(),
{
    if lits.len() == 0 {
        Seq::empty()
    } else {
        literals_summary_of(lits.drop_last()) + literal_summary_of(lits.last())
    }
}

fn take_or_empty(o: Option<String>) -> (r: String)
    ensures
        r@ == or_empty(opt_view(o)),
{
    match o {
        Some(s) => s,
        None => String::new(),
    }
}

/// Shows a storage key as `pallet > field > key`.
pub fn describe_storage_key(key: &str) -> (r: String)
    ensures
        r@ == describe_of(key@),
{
    let (p, f, k) = storage_key_semantic_decode(key, true);
    let mut out = take_or_empty(p);
    out.append(" > ");
    out.append(take_or_empty(f).as_str());
    out.append(" > ");
    out.append(take_or_empty(k).as_str());
    out
}

/// Shows a hex storage key as `pallet > field > key`; fails when it is not hex.
pub fn decode_storage_key(key: &str) -> (r: Result<String, Error>)
    ensures
        r is Ok <==> all_hex(key@),
        r matches Ok(s) ==> s@ == describe_of(key@),
        r matches Err(e) ==> (e matches Error::OptionValueIncorrect(o, _) && o@ == "storage key"@),
{
    let n = key.unicode_len();
    let mut i: usize = 0;
    while i < n
        invariant
            n == key@.len(),
            i <= n,
            forall|j: int| 0 <= j < i ==> crate::nibble::is_hex_char(#[trigger] key@[j]),
        decreases n - i,
    {
        if !is_hex_digit(key.get_char(i)) {
            return Err(
                Error::OptionValueIncorrect(
                    "storage key".to_owned(),
                    "a character is not a hex digit".to_owned(),
                ),
            );
        }
        i = i + 1;
    }
    Ok(describe_storage_key(key))
}

/// Shows, one after the other, the literals whose pallet is known.
pub fn summarize_literals(lits: &Vec<String>) -> (r: String)
    ensures
        r@ == literals_summary_of(texts_view(lits@)),
{
    let mut out = String::new();
    let mut i: usize = 0;
    while i < lits.len()
        invariant
            i <= lits@.len(),
            out@ == literals_summary_of(texts_view(lits@).take(i as int)),
        decreases lits@.len() - i,
    {
        let lit = lits[i].as_str();
        let (p, _, _) = storage_key_semantic_decode(lit, true);
        if p.is_some() {
            out.append(describe_storage_key(lit).as_str());
        }
        assert(texts_view(lits@).take(i + 1).drop_last() =~= texts_view(lits@).take(i as int));
        i = i + 1;
    }
    assert(texts_view(lits@).take(lits@.len() as int) =~= texts_view(lits@));
    out
}

/// The storage keys found in a line of text, shown one after the other.
pub fn decode_line(line: &str) -> (r: String)
    ensures
        r@ == literals_summary_of(hex_literals_of(line@)),
{
    match find_matches(HEXAL_LITERAL_FORMAT, line) {
        Some(lits) => summarize_literals(&lits),
        None => String::new(),
    }
}

} // verus!
