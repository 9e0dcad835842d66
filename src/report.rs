//! The JSON text of an inspection and of a comparison.

use vstd::prelude::*;

use crate::codec::{semantic_decode_of, starts_with, storage_key_semantic_decode};
use crate::diff::{DiffEntry, NodeChangeStatus, SubtrieEntry};
use crate::hashing::{blake2_256_of, Blake2Hasher};
use crate::hexcode::{hex_encode, hex_encode_of};
use crate::nibble::{hex_char_of, map_pos_to_char, push_char};
use crate::stream::{or_empty, texts_view};

verus! {

/// What a summary shows for a node's data: data of hash size as it is, other data by its
/// Blake2b-256 digest.
pub open spec fn summary_hash_of(data: Seq<u8>) -> Seq<u8> {
    if data.len() == 32 {
        data
    } else {
        blake2_256_of(data)@
    }
}

pub fn summary_hash(data: &Vec<u8>) -> (r: Vec<u8>)
    ensures
        r@ == summary_hash_of(data@),
{
    if data.len() == 32 {
        vstd::slice::slice_to_vec(data.as_slice())
    } else {
        let h = Blake2Hasher::hash(data.as_slice());
        vstd::slice::slice_to_vec(h.as_slice())
    }
}

/// How many codes mark a change.
pub open spec fn change_count_of(codes: Seq<i16>) -> nat
    decreases codes.len(),
{
    if codes.len() == 0 {
        0
    } else {
        change_count_of(codes.drop_last()) + if codes.last() != 0 {
            1nat
        } else {
            0nat
        }
    }
}

pub fn change_length(codes: &Vec<i16>) -> (r: usize)
    ensures
        r == change_count_of(codes@),
{
    let mut n: usize = 0;
    let mut i: usize = 0;
    while i < codes.len()
        invariant
            i <= codes@.len(),
            n == change_count_of(codes@.take(i as int)),
            n <= i,
        decreases codes@.len() - i,
    {
        assert(codes@.take(i + 1).drop_last() =~= codes@.take(i as int));
        if codes[i] != 0 {
            n = n + 1;
        }
        i = i + 1;
    }
    assert(codes@.take(codes@.len() as int) =~= codes@);
    n
}

/// A path relative to `prefix`: what follows it, or the whole path when it does not
/// begin with it.
pub open spec fn relative_of(path: Seq<char>, prefix: Seq<char>) -> Seq<char> {
    if prefix.len() <= path.len() && path.subrange(0, prefix.len() as int) == prefix {
        path.subrange(prefix.len() as int, path.len() as int)
    } else {
        path
    }
}

pub fn subtrie_path(path: &str, prefix: &str) -> (r: String)
    ensures
        r@ == relative_of(path@, prefix@),
{
    if starts_with(path, prefix) {
        path.substring_char(prefix.unicode_len(), path.unicode_len()).to_owned()
    } else {
        path.to_owned()
    }
}

/// The decimal digits of a number.
pub open spec fn decimal_of(n: nat) -> Seq<char>
    decreases n,
{
    if n < 10 {
        seq![hex_char_of(n)]
    } else {
        decimal_of(n / 10).push(hex_char_of(n % 10))
    }
}

pub fn decimal(n: usize) -> (r: String)
    ensures
        r@ == decimal_of(n as nat),
    decreases n,
{
    if n < 10 {
        let mut s = String::new();
        push_char(&mut s, map_pos_to_char(n));
        s
    } else {
        let mut s = decimal(n / 10);
        push_char(&mut s, map_pos_to_char(n % 10));
        s
    }
}

/// The decimal text of a signed number.
pub open spec fn signed_of(v: int) -> Seq<char> {
    if v < 0 {
        seq!['-'] + decimal_of((-v) as nat)
    } else {
        decimal_of(v as nat)
    }
}

fn signed(v: i16) -> (r: String)
    ensures
        r@ == signed_of(v as int),
{
    if v < 0 {
        let mut s = String::new();
        push_char(&mut s, '-');
        let m = (-(v as i32)) as usize;
        s.append(decimal(m).as_str());
        s
    } else {
        decimal(v as usize)
    }
}

pub open spec fn bool_text_of(b: bool) -> Seq<char> {
    if b {
        "true"@
    } else {
        "false"@
    }
}

/// Texts joined by a separator.
pub open spec fn joined_of(items: Seq<Seq<char>>, sep: Seq<char>) -> Seq<char>
    decreases items.len(),
{
    if items.len() == 0 {
        Seq::empty()
    } else {
        joined_of(items.drop_last(), sep) + (if items.len() > 1 {
            sep
        } else {
            Seq::empty()
        }) + items.last()
    }
}

fn join(items: &Vec<String>, sep: &str) -> (r: String)
    ensures
        r@ == joined_of(texts_view(items@), sep@),
{
    let mut out = String::new();
    let mut i: usize = 0;
    while i < items.len()
        invariant
            i <= items@.len(),
            out@ == joined_of(texts_view(items@).take(i as int), sep@),
        decreases items@.len() - i,
    {
        if i > 0 {
            out.append(sep);
        }
        out.append(items[i].as_str());
        assert(texts_view(items@).take(i + 1).drop_last() =~= texts_view(items@).take(i as int));
        assert(out@ =~= joined_of(texts_view(items@).take(i + 1), sep@));
        i = i + 1;
    }
    assert(texts_view(items@).take(items@.len() as int) =~= texts_view(items@));
    out
}

/// The list text of bytes, as `[1, 2, 3]`.
pub open spec fn byte_list_of(d: Seq<u8>) -> Seq<char> {
    "["@ + joined_of(d.map_values(|b: u8| decimal_of(b as nat)), ", "@) + "]"@
}

/// The list text of change codes, as `[0, 7, -3]`.
pub open spec fn code_list_of(c: Seq<i16>) -> Seq<char> {
    "["@ + joined_of(c.map_values(|v: i16| signed_of(v as int)), ", "@) + "]"@
}

fn byte_list(d: &Vec<u8>) -> (r: String)
    ensures
        r@ == byte_list_of(d@),
{
    let mut items: Vec<String> = Vec::new();
    let mut i: usize = 0;
    while i < d.len()
        invariant
            i <= d@.len(),
            items@.len() == i,
            forall|j: int| 0 <= j < i ==> (#[trigger] items@[j])@ == decimal_of(d@[j] as nat),
        decreases d@.len() - i,
    {
        items.push(decimal(d[i] as usize));
        i = i + 1;
    }
    assert(texts_view(items@) =~= d@.map_values(|b: u8| decimal_of(b as nat)));
    let mut out = "[".to_owned();
    out.append(join(&items, ", ").as_str());
    out.append("]");
    out
}

fn code_list(c: &Vec<i16>) -> (r: String)
    ensures
        r@ == code_list_of(c@),
{
    let mut items: Vec<String> = Vec::new();
    let mut i: usize = 0;
    while i < c.len()
        invariant
            i <= c@.len(),
            items@.len() == i,
            forall|j: int| 0 <= j < i ==> (#[trigger] items@[j])@ == signed_of(c@[j] as int),
        decreases c@.len() - i,
    {
        items.push(signed(c[i]));
        i = i + 1;
    }
    assert(texts_view(items@) =~= c@.map_values(|v: i16| signed_of(v as int)));
    let mut out = "[".to_owned();
    out.append(join(&items, ", ").as_str());
    out.append("]");
    out
}

/// The names that a path reads as, in the order pallet, field, key.
pub open spec fn names_of(path: Seq<char>) -> Seq<char> {
    let d = semantic_decode_of(path, false);
    "\",\"pallet\":\""@ + or_empty(d.0) + "\",\"field\":\""@ + or_empty(d.1) + "\",\"key\":\""@
        + or_empty(d.2) + "\"}}"@
}

fn names(path: &str) -> (r: String)
    ensures
        r@ == names_of(path@),
{
    let (p, f, k) = storage_key_semantic_decode(path, false);
    let mut out = "\",\"pallet\":\"".to_owned();
    if let Some(p) = p {
        out.append(p.as_str());
    }
    out.append("\",\"field\":\"");
    if let Some(f) = f {
        out.append(f.as_str());
    }
    out.append("\",\"key\":\"");
    if let Some(k) = k {
        out.append(k.as_str());
    }
    out.append("\"}}");
    out
}

/// The JSON object of one harvested entry.
pub open spec fn entry_json_of(e: SubtrieEntry, summary: bool, prefix: Seq<char>) -> Seq<char> {
    if summary {
        "{\"0x"@ + e.path@ + "\":{\"hash\":\"0x"@ + hex_encode_of(summary_hash_of(e.data@))
            + "\",\"length\":"@ + decimal_of(e.data@.len()) + ",\"leaf\":"@ + bool_text_of(
            e.is_leaf,
        ) + ",\"subtrie_path\":\""@ + relative_of(e.path@, prefix) + names_of(e.path@)
    } else {
        "{\""@ + e.path@ + "\":"@ + byte_list_of(e.data@) + "}"@
    }
}

fn entry_json(e: &SubtrieEntry, summary: bool, prefix: &str) -> (r: String)
    ensures
        r@ == entry_json_of(*e, summary, prefix@),
{
    if summary {
        let mut out = "{\"0x".to_owned();
        out.append(e.path.as_str());
        out.append("\":{\"hash\":\"0x");
        out.append(hex_encode(summary_hash(&e.data).as_slice()).as_str());
        out.append("\",\"length\":");
        out.append(decimal(e.data.len()).as_str());
        out.append(",\"leaf\":");
        out.append(if e.is_leaf { "true" } else { "false" });
        out.append(",\"subtrie_path\":\"");
        out.append(subtrie_path(e.path.as_str(), prefix).as_str());
        out.append(names(e.path.as_str()).as_str());
        out
    } else {
        let mut out = "{\"".to_owned();
        out.append(e.path.as_str());
        out.append("\":");
        out.append(byte_list(&e.data).as_str());
        out.append("}");
        out
    }
}

pub open spec fn status_text_of(s: NodeChangeStatus) -> Seq<char> {
    match s {
        NodeChangeStatus::Insert => "Insert"@,
        NodeChangeStatus::Delete => "Delete"@,
        NodeChangeStatus::Modify => "Modify"@,
    }
}

/// The JSON object of one change.
pub open spec fn diff_json_of(e: DiffEntry, summary: bool, prefix: Seq<char>) -> Seq<char> {
    if summary {
        "{\"0x"@ + e.path@ + "\":{\"length\":"@ + decimal_of(e.codes@.len())
            + ", \"change_length\":"@ + decimal_of(change_count_of(e.codes@)) + ",\"status\":\""@
            + status_text_of(e.status) + "\",\"subtrie_path\":\""@ + relative_of(e.path@, prefix)
            + names_of(e.path@)
    } else {
        "{\""@ + e.path@ + "\":"@ + code_list_of(e.codes@) + "}"@
    }
}

fn diff_json(e: &DiffEntry, summary: bool, prefix: &str) -> (r: String)
    ensures
        r@ == diff_json_of(*e, summary, prefix@),
{
    if summary {
        let mut out = "{\"0x".to_owned();
        out.append(e.path.as_str());
        out.append("\":{\"length\":");
        out.append(decimal(e.codes.len()).as_str());
        out.append(", \"change_length\":");
        out.append(decimal(change_length(&e.codes)).as_str());
        out.append(",\"status\":\"");
        out.append(
            match e.status {
                NodeChangeStatus::Insert => "Insert",
                NodeChangeStatus::Delete => "Delete",
                NodeChangeStatus::Modify => "Modify",
            },
        );
        out.append("\",\"subtrie_path\":\"");
        out.append(subtrie_path(e.path.as_str(), prefix).as_str());
        out.append(names(e.path.as_str()).as_str());
        out
    } else {
        let mut out = "{\"".to_owned();
        out.append(e.path.as_str());
        out.append("\":");
        out.append(code_list(&e.codes).as_str());
        out.append("}");
        out
    }
}

/// A JSON array of the given objects.
pub open spec fn json_array_of(items: Seq<Seq<char>>) -> Seq<char> {
    "["@ + joined_of(items, ","@) + "]"@
}

/// The JSON text of the entries of an inspection; `prefix` is the inspected key.
pub fn json_output(output: &Vec<SubtrieEntry>, summary: bool, prefix: &str) -> (r: String)
    ensures
        r@ == json_array_of(output@.map_values(|e: SubtrieEntry| entry_json_of(e, summary, prefix@))),
{
    let mut items: Vec<String> = Vec::new();
    let mut i: usize = 0;
    while i < output.len()
        invariant
            i <= output@.len(),
            items@.len() == i,
            forall|j: int|
                0 <= j < i ==> (#[trigger] items@[j])@ == entry_json_of(output@[j], summary, prefix@),
        decreases output@.len() - i,
    {
        items.push(entry_json(&output[i], summary, prefix));
        i = i + 1;
    }
    assert(texts_view(items@) =~= output@.map_values(
        |e: SubtrieEntry| entry_json_of(e, summary, prefix@),
    ));
    let mut out = "[".to_owned();
    out.append(join(&items, ",").as_str());
    out.append("]");
    out
}

/// The JSON text of the changes of a comparison; `prefix` is the compared key.
pub fn json_diff(output: &Vec<DiffEntry>, summary: bool, prefix: &str) -> (r: String)
    ensures
        r@ == json_array_of(output@.map_values(|e: DiffEntry| diff_json_of(e, summary, prefix@))),
{
    let mut items: Vec<String> = Vec::new();
    let mut i: usize = 0;
    while i < output.len()
        invariant
            i <= output@.len(),
            items@.len() == i,
            forall|j: int|
                0 <= j < i ==> (#[trigger] items@[j])@ == diff_json_of(output@[j], summary, prefix@),
        decreases output@.len() - i,
    {
        items.push(diff_json(&output[i], summary, prefix));
        i = i + 1;
    }
    assert(texts_view(items@) =~= output@.map_values(
        |e: DiffEntry| diff_json_of(e, summary, prefix@),
    ));
    let mut out = "[".to_owned();
    out.append(join(&items, ",").as_str());
    out.append("]");
    out
}

} // verus!
