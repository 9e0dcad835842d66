//! Trie nodes: the decoder's plan of a node's bytes, and the node it describes.

use core::ops::Range;
use vstd::prelude::*;
use vstd::slice::{slice_subrange, slice_to_vec};

use sp_core::Blake2Hasher;
use sp_trie::NodeCodec;
use trie_db::node::{NodeHandlePlan, NodePlan, ValuePlan};
use trie_db::NodeCodec as NodeCodecT;

use crate::nibble::is_nibble_path;

verus! {

/// Where a child is: bytes of the parent that hold its hash, or the child node itself.
pub enum ChildRef {
    Hash(Range<usize>),
    Inline(Range<usize>),
}

/// Where a value is: bytes of the node that hold it, or that hold the hash under which it
/// is stored apart from the node.
pub enum StoredValue {
    Inline(Range<usize>),
    Hashed(Range<usize>),
}

/// The decoder's plan of a node: its shape, with byte ranges of the encoded node for the
/// value and the children, and the partial key as nibbles. This format has no extension
/// nodes, and its branches always carry a partial key, possibly empty.
pub enum DecodedNode {
    Empty,
    Leaf(StoredValue),
    NibbledBranch(Vec<u8>, Vec<Option<ChildRef>>, Option<StoredValue>),
}

pub enum PlanView {
    Empty,
    Leaf(StoredValue),
    NibbledBranch(Seq<u8>, Seq<Option<ChildRef>>, Option<StoredValue>),
}

impl View for DecodedNode {
    type V = PlanView;

    open spec fn view(&self) -> PlanView {
        match self {
            DecodedNode::Empty => PlanView::Empty,
            DecodedNode::Leaf(v) => PlanView::Leaf(*v),
            DecodedNode::NibbledBranch(p, c, v) => PlanView::NibbledBranch(p@, c@, *v),
        }
    }
}

/// The plan that the trie's node codec makes of an encoded node, or none when the bytes
/// are not a node.
pub uninterp spec fn node_plan_of(data: Seq<u8>) -> Option<PlanView>;

/// Relies on `NodeCodec::decode_plan` of `sp_trie` (with `sp_core`'s Blake2 hasher): the
/// plan depends on the bytes alone, and is only ever empty, a leaf or a nibbled branch.
/// Partial keys are read through `NibbleSlicePlan::build`.
#[verifier::external_body]
fn decode_plan(data: &[u8]) -> (r: Option<DecodedNode>)
    ensures
        r is Some <==> node_plan_of(data@) is Some,
        r matches Some(p) ==> node_plan_of(data@) == Some(p@),
{
    let r = |v: ValuePlan| match v { ValuePlan::Inline(r) => StoredValue::Inline(r), ValuePlan::Node(r) => StoredValue::Hashed(r) };
    Some(match NodeCodec::<Blake2Hasher>::decode_plan(data).ok()? {
        NodePlan::Empty => DecodedNode::Empty,
        NodePlan::Leaf { value, .. } => DecodedNode::Leaf(r(value)),
        NodePlan::NibbledBranch { partial, value, children } => DecodedNode::NibbledBranch(
            partial.build(data).iter().collect(),
            children.iter().map(|h| Some(match h.clone()? { NodeHandlePlan::Hash(r) => ChildRef::Hash(r), NodeHandlePlan::Inline(r) => ChildRef::Inline(r) })).collect(),
            value.map(r),
        ),
        _ => return None,
    })
}

/// A node to visit: by the hash under which the store holds it, or its bytes in place.
pub enum NodeRef {
    Hash(Vec<u8>),
    Inline(Vec<u8>),
}

pub enum RefView {
    Hash(Seq<u8>),
    Inline(Seq<u8>),
}

impl View for NodeRef {
    type V = RefView;

    open spec fn view(&self) -> RefView {
        match self {
            NodeRef::Hash(h) => RefView::Hash(h@),
            NodeRef::Inline(b) => RefView::Inline(b@),
        }
    }
}

impl RefView {
    /// The bytes of the reference itself: a hash, or an inline node.
    pub open spec fn bytes(self) -> Seq<u8> {
        match self {
            RefView::Hash(h) => h,
            RefView::Inline(b) => b,
        }
    }
}

/// A decoded node with its value and children taken out of its bytes. A branch without
/// a partial key has an empty one. Extension nodes belong to encodings of the trie that
/// this format's decoder does not produce; the walker follows them all the same.
#[allow(inconsistent_fields)]
pub enum TrieNode {
    Empty,
    Leaf { value: Vec<u8>, hashed: bool },
    Extension { partial: Vec<u8>, child: NodeRef },
    Branch { partial: Vec<u8>, children: Vec<Option<NodeRef>>, value: Option<Vec<u8>> },
}

#[allow(inconsistent_fields)]
pub enum NodeView {
    Empty,
    Leaf { value: Seq<u8>, hashed: bool },
    Extension { partial: Seq<u8>, child: RefView },
    Branch { partial: Seq<u8>, children: Seq<Option<RefView>>, value: Option<Seq<u8>> },
}

pub open spec fn opt_ref_view(o: Option<NodeRef>) -> Option<RefView> {
    match o {
        Some(r) => Some(r@),
        None => None,
    }
}

pub open spec fn opt_bytes_view(o: Option<Vec<u8>>) -> Option<Seq<u8>> {
    match o {
        Some(v) => Some(v@),
        None => None,
    }
}

impl View for TrieNode {
    type V = NodeView;

    open spec fn view(&self) -> NodeView {
        match self {
            TrieNode::Empty => NodeView::Empty,
            TrieNode::Leaf { value, hashed } => NodeView::Leaf { value: value@, hashed: *hashed },
            TrieNode::Extension { partial, child } => NodeView::Extension {
                partial: partial@,
                child: child@,
            },
            TrieNode::Branch { partial, children, value } => NodeView::Branch {
                partial: partial@,
                children: children@.map_values(|c: Option<NodeRef>| opt_ref_view(c)),
                value: opt_bytes_view(*value),
            },
        }
    }
}

pub open spec fn range_ok(r: Range<usize>, len: nat) -> bool {
    r.start <= r.end && r.end <= len
}

pub open spec fn bytes_at(data: Seq<u8>, r: Range<usize>) -> Seq<u8> {
    data.subrange(r.start as int, r.end as int)
}

pub open spec fn child_ok(c: ChildRef, len: nat) -> bool {
    match c {
        ChildRef::Hash(r) => range_ok(r, len),
        ChildRef::Inline(r) => range_ok(r, len),
    }
}

pub open spec fn child_at(data: Seq<u8>, c: ChildRef) -> RefView {
    match c {
        ChildRef::Hash(r) => RefView::Hash(bytes_at(data, r)),
        ChildRef::Inline(r) => RefView::Inline(bytes_at(data, r)),
    }
}

pub open spec fn children_ok(cs: Seq<Option<ChildRef>>, len: nat) -> bool {
    cs.len() == 16 && forall|i: int|
        0 <= i < 16 ==> (#[trigger] cs[i] matches Some(c) ==> child_ok(c, len))
}

pub open spec fn children_at(data: Seq<u8>, cs: Seq<Option<ChildRef>>) -> Seq<Option<RefView>> {
    cs.map_values(
        |o: Option<ChildRef>|
            match o {
                Some(c) => Some(child_at(data, c)),
                None => None,
            },
    )
}

/// The range that holds a value, or its hash.
pub open spec fn stored_range(v: StoredValue) -> Range<usize> {
    match v {
        StoredValue::Inline(r) => r,
        StoredValue::Hashed(r) => r,
    }
}

pub open spec fn value_ok(o: Option<StoredValue>, len: nat) -> bool {
    o matches Some(v) ==> range_ok(stored_range(v), len)
}

pub open spec fn value_at(data: Seq<u8>, o: Option<StoredValue>) -> Option<Seq<u8>> {
    match o {
        Some(v) => Some(bytes_at(data, stored_range(v))),
        None => None,
    }
}

/// The node that a plan describes in the given bytes, or none when a range of the plan
/// reaches past the bytes, a partial key holds a value that is no nibble, or a branch
/// does not have sixteen child slots.
pub open spec fn resolve_of(data: Seq<u8>, plan: PlanView) -> Option<NodeView> {
    let len = data.len();
    match plan {
        PlanView::Empty => Some(NodeView::Empty),
        PlanView::Leaf(value) => if range_ok(stored_range(value), len) {
            Some(
                NodeView::Leaf {
                    value: bytes_at(data, stored_range(value)),
                    hashed: value is Hashed,
                },
            )
        } else {
            None
        },
        PlanView::NibbledBranch(partial, children, value) => if is_nibble_path(partial)
            && children_ok(children, len) && value_ok(value, len) {
            Some(
                NodeView::Branch {
                    partial: partial,
                    children: children_at(data, children),
                    value: value_at(data, value),
                },
            )
        } else {
            None
        },
    }
}

/// The node that encoded bytes hold, or none when they are corrupt.
pub open spec fn node_of(data: Seq<u8>) -> Option<NodeView> {
    match node_plan_of(data) {
        Some(plan) => resolve_of(data, plan),
        None => None,
    }
}

pub(crate) fn copy_bytes(v: &Vec<u8>) -> (r: Vec<u8>)
    ensures
        r@ == v@,
{
    slice_to_vec(v.as_slice())
}

fn range_fits(r: &Range<usize>, len: usize) -> (b: bool)
    ensures
        b == range_ok(*r, len as nat),
{
    r.start <= r.end && r.end <= len
}

fn range_of(v: &StoredValue) -> (r: Range<usize>)
    ensures
        r == stored_range(*v),
{
    match v {
        StoredValue::Inline(r) => r.start..r.end,
        StoredValue::Hashed(r) => r.start..r.end,
    }
}

/// The bytes of a value, or of its hash when it is stored apart; none for a node without
/// a value.
pub fn parse_value(r: &Option<StoredValue>, data: &[u8]) -> (v: Vec<u8>)
    requires
        value_ok(*r, data@.len()),
    ensures
        v@ == match value_at(data@, *r) {
            Some(b) => b,
            None => Seq::empty(),
        },
{
    match r {
        Some(v) => {
            let r = range_of(v);
            slice_to_vec(slice_subrange(data, r.start, r.end))
        },
        None => Vec::new(),
    }
}

/// The node that a child reference points at, taken out of its parent's bytes.
pub fn parse_child_hash(c: &ChildRef, data: &[u8]) -> (r: NodeRef)
    requires
        child_ok(*c, data@.len()),
    ensures
        r@ == child_at(data@, *c),
{
    match c {
        ChildRef::Hash(r) => NodeRef::Hash(slice_to_vec(slice_subrange(data, r.start, r.end))),
        ChildRef::Inline(r) => NodeRef::Inline(slice_to_vec(slice_subrange(data, r.start, r.end))),
    }
}

fn nibbles_fit(p: &Vec<u8>) -> (b: bool)
    ensures
        b == is_nibble_path(p@),
{
    let mut i: usize = 0;
    while i < p.len()
        invariant
            i <= p@.len(),
            forall|j: int| 0 <= j < i ==> p@[j] < 16,
        decreases p@.len() - i,
    {
        if p[i] >= 16 {
            return false;
        }
        i = i + 1;
    }
    true
}

fn parse_children(cs: &Vec<Option<ChildRef>>, data: &[u8]) -> (r: Option<Vec<Option<NodeRef>>>)
    ensures
        r is Some <==> children_ok(cs@, data@.len()),
        r matches Some(v) ==> v@.map_values(|c: Option<NodeRef>| opt_ref_view(c)) == children_at(
            data@,
            cs@,
        ),
{
    if cs.len() != 16 {
        return None;
    }
    let mut out: Vec<Option<NodeRef>> = Vec::new();
    let mut i: usize = 0;
    while i < 16
        invariant
            cs@.len() == 16,
            i <= 16,
            out@.len() == i,
            forall|j: int| 0 <= j < i ==> (#[trigger] cs@[j] matches Some(c) ==> child_ok(c, data@.len())),
            forall|j: int|
                0 <= j < i ==> opt_ref_view(#[trigger] out@[j]) == children_at(data@, cs@)[j],
        decreases 16 - i,
    {
        match &cs[i] {
            Some(c) => {
                let ok = match c {
                    ChildRef::Hash(r) => range_fits(r, data.len()),
                    ChildRef::Inline(r) => range_fits(r, data.len()),
                };
                if !ok {
                    return None;
                }
                out.push(Some(parse_child_hash(c, data)));
            },
            None => {
                out.push(None);
            },
        }
        i = i + 1;
    }
    assert(out@.map_values(|c: Option<NodeRef>| opt_ref_view(c)) =~= children_at(data@, cs@));
    Some(out)
}

/// Decodes a node and takes its value and children out of its bytes; `None` when the
/// bytes are corrupt.
pub fn decode_node(data: &[u8]) -> (r: Option<TrieNode>)
    ensures
        match r {
            Some(n) => node_of(data@) == Some(n@),
            None => node_of(data@) is None,
        },
{
    let plan = match decode_plan(data) {
        Some(p) => p,
        None => return None,
    };
    match plan {
        DecodedNode::Empty => Some(TrieNode::Empty),
        DecodedNode::Leaf(value) => {
            if !range_fits(&range_of(&value), data.len()) {
                return None;
            }
            let hashed = match &value {
                StoredValue::Hashed(_) => true,
                StoredValue::Inline(_) => false,
            };
            Some(TrieNode::Leaf { value: parse_value(&Some(value), data), hashed })
        },
        DecodedNode::NibbledBranch(partial, children, value) => {
            let vok = match &value {
                Some(v) => range_fits(&range_of(v), data.len()),
                None => true,
            };
            if !vok || !nibbles_fit(&partial) {
                return None;
            }
            let cs = match parse_children(&children, data) {
                Some(cs) => cs,
                None => return None,
            };
            let v = match &value {
                Some(_) => Some(parse_value(&value, data)),
                None => None,
            };
            Some(TrieNode::Branch { partial, children: cs, value: v })
        },
    }
}

/// The shape that a decoded node is sure to have: partial keys are nibble paths, and a
/// branch has sixteen child slots.
pub open spec fn node_wf(n: NodeView) -> bool {
    match n {
        NodeView::Extension { partial, .. } => is_nibble_path(partial),
        NodeView::Branch { partial, children, .. } => is_nibble_path(partial) && children.len() == 16,
        _ => true,
    }
}

pub proof fn lemma_node_wf(data: Seq<u8>)
    requires
        node_of(data) is Some,
    ensures
        node_wf(node_of(data)->0),
{
}

} // verus!
