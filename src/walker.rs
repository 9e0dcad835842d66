//! The path walker: descends a trie along a nibble path from a root, and harvests the
//! subtree found there. It never reads the store itself: it names the node it wants next,
//! and is handed that node's bytes, or nothing when the store lacks it.

use vstd::prelude::*;
use vstd::slice::slice_to_vec;

use crate::diff::SubtrieEntry;
use crate::errors::Error;
use crate::nibble::{is_nibble_path, nibbles_of, parse_nibbles, render_nibbles, render_of};
use crate::node::{
    copy_bytes, decode_node, lemma_node_wf, node_of, node_wf, opt_bytes_view, opt_ref_view, NodeRef,
    NodeView, RefView, TrieNode,
};

verus! {

/// Where a walk stands.
#[derive(PartialEq, Eq, Structural, Clone, Copy, Debug)]
pub enum Phase {
    /// Following the path; the node to visit is `current`.
    Descend,
    /// Expanding the subtree; the nodes to visit are queued.
    Harvest,
    /// Finished with results.
    Done,
    /// Stopped: the store lacks a node.
    Missing,
    /// Stopped: a node's bytes are corrupt.
    Corrupt,
}

/// A node waiting to be harvested, with its path relative to the harvest root.
pub struct Pending {
    pub node: NodeRef,
    pub rel: Vec<u8>,
}

pub struct PendingView {
    pub node: RefView,
    pub rel: Seq<u8>,
}

impl View for Pending {
    type V = PendingView;

    open spec fn view(&self) -> PendingView {
        PendingView { node: self.node@, rel: self.rel@ }
    }
}

/// A result of a walk: a nibble path, the data found there, and whether it is a leaf.
pub struct WalkEntry {
    pub path: Vec<u8>,
    pub data: Vec<u8>,
    pub is_leaf: bool,
}

pub struct EntryView {
    pub path: Seq<u8>,
    pub data: Seq<u8>,
    pub is_leaf: bool,
}

impl View for WalkEntry {
    type V = EntryView;

    open spec fn view(&self) -> EntryView {
        EntryView { path: self.path@, data: self.data@, is_leaf: self.is_leaf }
    }
}

/// A walk in progress.
pub struct Walker {
    /// The requested path.
    pub path: Vec<u8>,
    pub include_children: bool,
    pub leaf_only: bool,
    pub phase: Phase,
    /// While descending: the node to visit next.
    pub current: NodeRef,
    /// While descending: how many nibbles of the path lead to `current`.
    pub consumed: usize,
    /// While harvesting: the path of the harvest root.
    pub base: Vec<u8>,
    pub queue: Vec<Pending>,
    pub results: Vec<WalkEntry>,
    /// After a failure: the reference of the node that failed.
    pub fault: Vec<u8>,
}

pub struct WalkerView {
    pub path: Seq<u8>,
    pub include_children: bool,
    pub leaf_only: bool,
    pub phase: Phase,
    pub current: RefView,
    pub consumed: nat,
    pub base: Seq<u8>,
    pub queue: Seq<PendingView>,
    pub results: Seq<EntryView>,
    pub fault: Seq<u8>,
}

pub open spec fn queue_view(q: Seq<Pending>) -> Seq<PendingView> {
    q.map_values(|p: Pending| p@)
}

pub open spec fn results_view(r: Seq<WalkEntry>) -> Seq<EntryView> {
    r.map_values(|e: WalkEntry| e@)
}

impl View for Walker {
    type V = WalkerView;

    open spec fn view(&self) -> WalkerView {
        WalkerView {
            path: self.path@,
            include_children: self.include_children,
            leaf_only: self.leaf_only,
            phase: self.phase,
            current: self.current@,
            consumed: self.consumed as nat,
            base: self.base@,
            queue: queue_view(self.queue@),
            results: results_view(self.results@),
            fault: self.fault@,
        }
    }
}

impl WalkerView {
    /// The walk still wants nodes.
    pub open spec fn running(self) -> bool {
        self.phase == Phase::Descend || self.phase == Phase::Harvest
    }

    /// The paths of the walk are nibble paths, the consumed nibbles lie within the path,
    /// and a harvest has a node to visit.
    pub open spec fn wf(self) -> bool {
        &&& is_nibble_path(self.path)
        &&& self.consumed <= self.path.len()
        &&& is_nibble_path(self.base)
        &&& forall|i: int| 0 <= i < self.queue.len() ==> is_nibble_path(#[trigger] self.queue[i].rel)
        &&& forall|i: int|
            0 <= i < self.results.len() ==> is_nibble_path(#[trigger] self.results[i].path)
        &&& self.phase == Phase::Harvest ==> self.queue.len() > 0
    }

    /// The node that the walk visits next.
    pub open spec fn next_ref(self) -> RefView {
        if self.phase == Phase::Descend {
            self.current
        } else {
            self.queue[0].node
        }
    }
}

/// The nibble path at which the walk reached its next node: the requested nibbles that led
/// to it while descending; the harvest root followed by the node's relative path while
/// harvesting.
pub open spec fn wanted_path_of(w: WalkerView) -> Seq<u8> {
    if w.phase == Phase::Descend {
        w.path.take(w.consumed as int)
    } else {
        w.base + w.queue[0].rel
    }
}

pub open spec fn entry(path: Seq<u8>, data: Seq<u8>, is_leaf: bool) -> EntryView {
    EntryView { path, data, is_leaf }
}

pub open spec fn emit(w: WalkerView, e: EntryView) -> WalkerView {
    WalkerView { results: w.results.push(e), ..w }
}

pub open spec fn finish(w: WalkerView) -> WalkerView {
    WalkerView { phase: Phase::Done, ..w }
}

/// Begins harvesting at `base` with the given nodes; with none, the walk is done.
pub open spec fn start_harvest(w: WalkerView, base: Seq<u8>, items: Seq<PendingView>) -> WalkerView {
    WalkerView {
        base,
        queue: items,
        phase: if items.len() == 0 {
            Phase::Done
        } else {
            Phase::Harvest
        },
        ..w
    }
}

/// The present children among the first `n` slots, each at `prefix` and its slot index.
pub open spec fn child_items(children: Seq<Option<RefView>>, prefix: Seq<u8>, n: nat) -> Seq<
    PendingView,
>
    decreases n,
{
    if n == 0 {
        Seq::empty()
    } else {
        child_items(children, prefix, (n - 1) as nat) + match children[n - 1] {
            Some(r) => seq![PendingView { node: r, rel: prefix.push((n - 1) as u8) }],
            None => Seq::empty(),
        }
    }
}

pub open spec fn value_or_empty(v: Option<Seq<u8>>) -> Seq<u8> {
    match v {
        Some(b) => b,
        None => Seq::empty(),
    }
}

/// One node visited while following the path.
pub open spec fn descend_step(w: WalkerView, n: NodeView) -> WalkerView {
    let here = w.path.take(w.consumed as int);
    let k = w.path.len() - w.consumed;
    match n {
        NodeView::Empty => finish(emit(w, entry(here, Seq::empty(), false))),
        NodeView::Leaf { value, hashed } => if value.len() == 32 && !hashed {
            if k > 0 {
                WalkerView { current: RefView::Hash(value), ..w }
            } else {
                start_harvest(w, w.path, seq![PendingView { node: RefView::Hash(value), rel: Seq::empty() }])
            }
        } else {
            finish(emit(w, entry(here, value, true)))
        },
        NodeView::Extension { partial, child } => if k > 0 {
            WalkerView {
                current: child,
                consumed: if w.consumed + partial.len() <= w.path.len() {
                    w.consumed + partial.len()
                } else {
                    w.path.len()
                },
                ..w
            }
        } else {
            let w1 = if w.leaf_only {
                w
            } else {
                emit(w, entry(w.path, Seq::empty(), false))
            };
            if w.include_children {
                start_harvest(w1, w.path, seq![PendingView { node: child, rel: partial }])
            } else {
                finish(w1)
            }
        },
        NodeView::Branch { partial, children, value } => if partial.len() < k {
            let at = (w.consumed + partial.len()) as int;
            match children[w.path[at] as int] {
                Some(c) => WalkerView { current: c, consumed: (at + 1) as nat, ..w },
                None => if w.include_children {
                    start_harvest(w, w.path.take(at), child_items(children, Seq::empty(), 16))
                } else {
                    finish(emit(w, entry(w.path.take(at), Seq::empty(), false)))
                },
            }
        } else {
            let w1 = if w.leaf_only {
                w
            } else {
                emit(w, entry(w.path, value_or_empty(value), false))
            };
            if w.include_children {
                start_harvest(
                    w1,
                    w.path,
                    child_items(children, partial.subrange(k, partial.len() as int), 16),
                )
            } else {
                finish(w1)
            }
        },
    }
}

/// One node of the subtree visited.
pub open spec fn harvest_step(w: WalkerView, n: NodeView) -> WalkerView {
    let item = w.queue[0];
    let rest = w.queue.drop_first();
    let at = w.base + item.rel;
    let w2 = match n {
        NodeView::Empty => WalkerView { queue: rest, ..w },
        NodeView::Leaf { value, .. } => WalkerView {
            queue: rest,
            results: w.results.push(entry(at, value, true)),
            ..w
        },
        NodeView::Extension { partial, child } => WalkerView {
            queue: rest.push(PendingView { node: child, rel: item.rel + partial }),
            ..w
        },
        NodeView::Branch { partial, children, value } => WalkerView {
            queue: rest + child_items(children, item.rel + partial, 16),
            results: if w.leaf_only {
                w.results
            } else {
                w.results.push(entry(at, value_or_empty(value), false))
            },
            ..w
        },
    };
    if w2.queue.len() == 0 {
        finish(w2)
    } else {
        w2
    }
}

/// The walk after being handed the bytes of the node it wanted (`None`: the store lacks
/// it). An inline node is read in place, whatever is handed over. A stopped walk stays
/// as it is.
pub open spec fn step_of(w: WalkerView, fetched: Option<Seq<u8>>) -> WalkerView {
    if w.running() {
        let r = w.next_ref();
        let bytes = match r {
            RefView::Inline(b) => Some(b),
            RefView::Hash(_) => fetched,
        };
        match bytes {
            None => WalkerView { phase: Phase::Missing, fault: r.bytes(), ..w },
            Some(b) => match node_of(b) {
                None => WalkerView { phase: Phase::Corrupt, fault: r.bytes(), ..w },
                Some(n) => if w.phase == Phase::Descend {
                    descend_step(w, n)
                } else {
                    harvest_step(w, n)
                },
            },
        }
    } else {
        w
    }
}

/// A walk about to visit the root.
pub open spec fn initial_of(root: Seq<u8>, path: Seq<u8>, include_children: bool, leaf_only: bool) -> WalkerView {
    WalkerView {
        path,
        include_children,
        leaf_only,
        phase: Phase::Descend,
        current: RefView::Hash(root),
        consumed: 0,
        base: Seq::empty(),
        queue: Seq::empty(),
        results: Seq::empty(),
        fault: Seq::empty(),
    }
}

} // verus!

verus! {

proof fn lemma_child_items_nibbles(children: Seq<Option<RefView>>, prefix: Seq<u8>, n: nat)
    requires
        is_nibble_path(prefix),
        n <= 16,
    ensures
        forall|i: int|
            0 <= i < child_items(children, prefix, n).len() ==> is_nibble_path(
                #[trigger] child_items(children, prefix, n)[i].rel,
            ),
    decreases n,
{
    if n > 0 {
        lemma_child_items_nibbles(children, prefix, (n - 1) as nat);
        let p = prefix.push((n - 1) as u8);
        assert(is_nibble_path(p)) by {
            assert forall|j: int| 0 <= j < p.len() implies #[trigger] p[j] < 16 by {
                if j < prefix.len() {
                    assert(p[j] == prefix[j]);
                }
            }
        }
    }
}

proof fn lemma_concat_nibbles(a: Seq<u8>, b: Seq<u8>)
    requires
        is_nibble_path(a),
        is_nibble_path(b),
    ensures
        is_nibble_path(a + b),
{
    assert forall|j: int| 0 <= j < (a + b).len() implies #[trigger] (a + b)[j] < 16 by {
        if j < a.len() {
            assert((a + b)[j] == a[j]);
        } else {
            assert((a + b)[j] == b[j - a.len()]);
        }
    }
}

fn copy_ref(r: &NodeRef) -> (c: NodeRef)
    ensures
        c@ == r@,
{
    match r {
        NodeRef::Hash(h) => NodeRef::Hash(copy_bytes(h)),
        NodeRef::Inline(b) => NodeRef::Inline(copy_bytes(b)),
    }
}

fn ref_bytes(r: &NodeRef) -> (b: Vec<u8>)
    ensures
        b@ == r@.bytes(),
{
    match r {
        NodeRef::Hash(h) => copy_bytes(h),
        NodeRef::Inline(b) => copy_bytes(b),
    }
}

fn concat(a: &Vec<u8>, b: &Vec<u8>) -> (r: Vec<u8>)
    ensures
        r@ == a@ + b@,
{
    let mut out = copy_bytes(a);
    let mut i: usize = 0;
    while i < b.len()
        invariant
            i <= b@.len(),
            out@ == a@ + b@.take(i as int),
        decreases b@.len() - i,
    {
        out.push(b[i]);
        assert(b@.take(i + 1) =~= b@.take(i as int).push(b@[i as int]));
        assert(out@ =~= a@ + b@.take(i + 1));
        i = i + 1;
    }
    assert(b@.take(b@.len() as int) =~= b@);
    out
}

fn sub_bytes(v: &Vec<u8>, from: usize, to: usize) -> (r: Vec<u8>)
    requires
        from <= to <= v@.len(),
    ensures
        r@ == v@.subrange(from as int, to as int),
{
    slice_to_vec(vstd::slice::slice_subrange(v.as_slice(), from, to))
}

/// Queues the present children of a branch, in slot order, each at `prefix` and its slot.
fn push_children(queue: &mut Vec<Pending>, children: &Vec<Option<NodeRef>>, prefix: &Vec<u8>)
    requires
        children@.len() == 16,
    ensures
        queue_view(final(queue)@) == queue_view(old(queue)@) + child_items(
            children@.map_values(|c: Option<NodeRef>| opt_ref_view(c)),
            prefix@,
            16,
        ),
{
    let ghost cv = children@.map_values(|c: Option<NodeRef>| opt_ref_view(c));
    let ghost start = queue_view(queue@);
    let mut i: usize = 0;
    while i < 16
        invariant
            children@.len() == 16,
            cv == children@.map_values(|c: Option<NodeRef>| opt_ref_view(c)),
            i <= 16,
            queue_view(queue@) == start + child_items(cv, prefix@, i as nat),
        decreases 16 - i,
    {
        let ghost before = queue@;
        match &children[i] {
            Some(c) => {
                let mut rel = copy_bytes(prefix);
                rel.push(i as u8);
                queue.push(Pending { node: copy_ref(c), rel });
                assert(queue_view(queue@) =~= queue_view(before).push(
                    PendingView { node: cv[i as int]->0, rel: prefix@.push(i as u8) },
                ));
            },
            None => {},
        }
        assert(queue_view(queue@) =~= start + child_items(cv, prefix@, (i + 1) as nat));
        i = i + 1;
    }
}

impl Walker {
    /// A walk from `root` along `path`. With `include_children`, the subtree where the path
    /// ends is harvested; with `leaf_only`, only leaves are reported from it.
    pub fn new(root: Vec<u8>, path: Vec<u8>, include_children: bool, leaf_only: bool) -> (w: Walker)
        requires
            is_nibble_path(path@),
        ensures
            w@ == initial_of(root@, path@, include_children, leaf_only),
            w@.wf(),
    {
        let w = Walker {
            path,
            include_children,
            leaf_only,
            phase: Phase::Descend,
            current: NodeRef::Hash(root),
            consumed: 0,
            base: Vec::new(),
            queue: Vec::new(),
            results: Vec::new(),
            fault: Vec::new(),
        };
        assert(queue_view(w.queue@) =~= Seq::<PendingView>::empty());
        assert(results_view(w.results@) =~= Seq::<EntryView>::empty());
        w
    }

    /// Whether the walk still wants nodes.
    pub fn is_running(&self) -> (b: bool)
        ensures
            b == self@.running(),
    {
        self.phase == Phase::Descend || self.phase == Phase::Harvest
    }

    /// The hash of the node that the walk wants next, if it wants one from the store.
    pub fn wanted(&self) -> (r: Option<Vec<u8>>)
        requires
            self@.wf(),
        ensures
            r is Some <==> self@.running() && self@.next_ref() is Hash,
            r matches Some(h) ==> self@.next_ref() == RefView::Hash(h@),
    {
        if !self.is_running() {
            return None;
        }
        let r = if self.phase == Phase::Descend {
            &self.current
        } else {
            assert(self.queue@[0]@ == self@.queue[0]);
            &self.queue[0].node
        };
        match r {
            NodeRef::Hash(h) => Some(copy_bytes(h)),
            NodeRef::Inline(_) => None,
        }
    }

    /// The nibble path at which the walk reached the node it wants; a store that keys nodes
    /// by that path and their hash needs it.
    pub fn wanted_path(&self) -> (r: Vec<u8>)
        requires
            self@.wf(),
            self@.running(),
        ensures
            r@ == wanted_path_of(self@),
            is_nibble_path(r@),
    {
        if self.phase == Phase::Descend {
            sub_bytes(&self.path, 0, self.consumed)
        } else {
            assert(self.queue@[0]@ == self@.queue[0]);
            proof {
                lemma_concat_nibbles(self@.base, self@.queue[0].rel);
            }
            concat(&self.base, &self.queue[0].rel)
        }
    }

    fn add_entry(&mut self, path: Vec<u8>, data: Vec<u8>, is_leaf: bool)
        ensures
            *final(self) == (Walker { results: final(self).results, ..*old(self) }),
            results_view(final(self).results@) == results_view(old(self).results@).push(
                entry(path@, data@, is_leaf),
            ),
    {
        let ghost before = self.results@;
        self.results.push(WalkEntry { path, data, is_leaf });
        assert(results_view(self.results@) =~= results_view(before).push(entry(path@, data@, is_leaf)));
    }

    fn begin_harvest(&mut self, base: Vec<u8>, items: Vec<Pending>)
        ensures
            final(self)@ == start_harvest(old(self)@, base@, queue_view(items@)),
    {
        let empty = items.len() == 0;
        self.base = base;
        self.queue = items;
        self.phase = if empty {
            Phase::Done
        } else {
            Phase::Harvest
        };
    }

    #[verifier::rlimit(50)]
    fn descend(&mut self, n: TrieNode)
        requires
            old(self)@.wf(),
            old(self)@.phase == Phase::Descend,
            node_wf(n@),
        ensures
            final(self)@ == descend_step(old(self)@, n@),
            final(self)@.wf(),
    {
        let ghost w = self@;
        let k = self.path.len() - self.consumed;
        let ghost here = w.path.take(w.consumed as int);
        assert(is_nibble_path(here));
        match n {
            TrieNode::Empty => {
                let p = sub_bytes(&self.path, 0, self.consumed);
                self.add_entry(p, Vec::new(), false);
                self.phase = Phase::Done;
            },
            TrieNode::Leaf { value, hashed } => {
                if value.len() == 32 && !hashed {
                    if k > 0 {
                        self.current = NodeRef::Hash(value);
                    } else {
                        let base = copy_bytes(&self.path);
                        let mut q: Vec<Pending> = Vec::new();
                        q.push(Pending { node: NodeRef::Hash(value), rel: Vec::new() });
                        assert(queue_view(q@) =~= seq![
                            PendingView { node: RefView::Hash(value@), rel: Seq::empty() },
                        ]);
                        self.begin_harvest(base, q);
                    }
                } else {
                    let p = sub_bytes(&self.path, 0, self.consumed);
                    self.add_entry(p, value, true);
                    self.phase = Phase::Done;
                }
            },
            TrieNode::Extension { partial, child } => {
                if k > 0 {
                    let c = if partial.len() <= k {
                        self.consumed + partial.len()
                    } else {
                        self.path.len()
                    };
                    self.current = child;
                    self.consumed = c;
                } else {
                    if !self.leaf_only {
                        let p = copy_bytes(&self.path);
                        self.add_entry(p, Vec::new(), false);
                    }
                    if self.include_children {
                        let base = copy_bytes(&self.path);
                        let mut q: Vec<Pending> = Vec::new();
                        let ghost pv = PendingView { node: child@, rel: partial@ };
                        q.push(Pending { node: child, rel: partial });
                        assert(queue_view(q@) =~= seq![pv]);
                        self.begin_harvest(base, q);
                    } else {
                        self.phase = Phase::Done;
                    }
                }
            },
            TrieNode::Branch { partial, children, value } => {
                let ghost cv = children@.map_values(|c: Option<NodeRef>| opt_ref_view(c));
                if partial.len() < k {
                    let at = self.consumed + partial.len();
                    let nib = self.path[at] as usize;
                    assert(cv[nib as int] == opt_ref_view(children@[nib as int]));
                    match &children[nib] {
                        Some(c) => {
                            self.current = copy_ref(c);
                            self.consumed = at + 1;
                        },
                        None => {
                            let p = sub_bytes(&self.path, 0, at);
                            assert(p@ == w.path.take(at as int));
                            if self.include_children {
                                let mut q: Vec<Pending> = Vec::new();
                                let empty: Vec<u8> = Vec::new();
                                push_children(&mut q, &children, &empty);
                                assert(queue_view(q@) =~= child_items(cv, Seq::empty(), 16));
                                proof {
                                    lemma_child_items_nibbles(cv, Seq::empty(), 16);
                                }
                                self.begin_harvest(p, q);
                            } else {
                                self.add_entry(p, Vec::new(), false);
                                self.phase = Phase::Done;
                            }
                        },
                    }
                } else {
                    if !self.leaf_only {
                        let p = copy_bytes(&self.path);
                        let v = match value {
                            Some(v) => v,
                            None => Vec::new(),
                        };
                        self.add_entry(p, v, false);
                    }
                    if self.include_children {
                        let prefix = sub_bytes(&partial, k, partial.len());
                        assert(is_nibble_path(prefix@));
                        let mut q: Vec<Pending> = Vec::new();
                        push_children(&mut q, &children, &prefix);
                        assert(queue_view(q@) =~= child_items(cv, prefix@, 16));
                        proof {
                            lemma_child_items_nibbles(cv, prefix@, 16);
                        }
                        let base = copy_bytes(&self.path);
                        self.begin_harvest(base, q);
                    } else {
                        self.phase = Phase::Done;
                    }
                }
            },
        }
    }

    #[verifier::rlimit(50)]
    fn harvest(&mut self, n: TrieNode)
        requires
            old(self)@.wf(),
            old(self)@.phase == Phase::Harvest,
            node_wf(n@),
        ensures
            final(self)@ == harvest_step(old(self)@, n@),
            final(self)@.wf(),
    {
        let ghost w = self@;
        let item = self.queue.remove(0);
        assert(queue_view(self.queue@) =~= w.queue.drop_first());
        assert(item@ == w.queue[0]);
        let at = concat(&self.base, &item.rel);
        proof {
            lemma_concat_nibbles(w.base, item.rel@);
        }
        match n {
            TrieNode::Empty => {},
            TrieNode::Leaf { value, .. } => {
                self.add_entry(at, value, true);
            },
            TrieNode::Extension { partial, child } => {
                let rel = concat(&item.rel, &partial);
                proof {
                    lemma_concat_nibbles(item.rel@, partial@);
                }
                let ghost before = self.queue@;
                let ghost pv = PendingView { node: child@, rel: rel@ };
                self.queue.push(Pending { node: child, rel });
                assert(queue_view(self.queue@) =~= queue_view(before).push(pv));
            },
            TrieNode::Branch { partial, children, value } => {
                let ghost cv = children@.map_values(|c: Option<NodeRef>| opt_ref_view(c));
                let prefix = concat(&item.rel, &partial);
                proof {
                    lemma_concat_nibbles(item.rel@, partial@);
                    lemma_child_items_nibbles(cv, prefix@, 16);
                }
                push_children(&mut self.queue, &children, &prefix);
                if !self.leaf_only {
                    let v = match value {
                        Some(v) => v,
                        None => Vec::new(),
                    };
                    self.add_entry(at, v, false);
                }
            },
        }
        if self.queue.len() == 0 {
            self.phase = Phase::Done;
        }
    }

    /// Hands the walk the bytes of the node it wanted, or `None` when the store lacks it.
    pub fn step(&mut self, fetched: Option<Vec<u8>>)
        requires
            old(self)@.wf(),
        ensures
            final(self)@ == step_of(old(self)@, opt_bytes_view(fetched)),
            final(self)@.wf(),
    {
        if !self.is_running() {
            return;
        }
        let descending = self.phase == Phase::Descend;
        let r = if descending {
            copy_ref(&self.current)
        } else {
            assert(self.queue@[0]@ == self@.queue[0]);
            copy_ref(&self.queue[0].node)
        };
        let bytes = match &r {
            NodeRef::Inline(b) => Some(copy_bytes(b)),
            NodeRef::Hash(_) => fetched,
        };
        let bytes = match bytes {
            Some(b) => b,
            None => {
                self.fault = ref_bytes(&r);
                self.phase = Phase::Missing;
                return;
            },
        };
        let n = match decode_node(bytes.as_slice()) {
            Some(n) => n,
            None => {
                self.fault = ref_bytes(&r);
                self.phase = Phase::Corrupt;
                return;
            },
        };
        proof {
            lemma_node_wf(bytes@);
        }
        if descending {
            self.descend(n);
        } else {
            self.harvest(n);
        }
    }

    /// The results of a finished walk; the error of a walk that stopped.
    pub fn finish(self) -> (r: Result<Vec<SubtrieEntry>, Error>)
        requires
            self@.wf(),
            !self@.running(),
        ensures
            r is Ok <==> self@.phase == Phase::Done,
            self@.phase == Phase::Missing <==> r matches Err(Error::NodeMissing(_)),
            self@.phase == Phase::Corrupt <==> r matches Err(Error::Corrupt(_)),
            r matches Err(Error::NodeMissing(h)) ==> h@ == self@.fault,
            r matches Err(Error::Corrupt(h)) ==> h@ == self@.fault,
            r matches Ok(v) ==> rendered(v@, self@.results),
    {
        if self.phase == Phase::Missing {
            return Err(Error::NodeMissing(self.fault));
        }
        if self.phase == Phase::Corrupt {
            return Err(Error::Corrupt(self.fault));
        }
        let mut out: Vec<SubtrieEntry> = Vec::new();
        let mut i: usize = 0;
        while i < self.results.len()
            invariant
                self@.wf(),
                i <= self.results@.len(),
                rendered(out@, self@.results.take(i as int)),
            decreases self.results@.len() - i,
        {
            let e = &self.results[i];
            assert(e@ == self@.results[i as int]);
            assert(is_nibble_path(self@.results[i as int].path));
            let path = render_nibbles(e.path.as_slice());
            out.push(SubtrieEntry { path, data: copy_bytes(&e.data), is_leaf: e.is_leaf });
            assert(self@.results.take(i + 1) =~= self@.results.take(i as int).push(e@));
            i = i + 1;
        }
        assert(self@.results.take(self.results@.len() as int) =~= self@.results);
        Ok(out)
    }
}

/// The entries are the walk's results, with their paths written as hex.
pub open spec fn rendered(v: Seq<SubtrieEntry>, results: Seq<EntryView>) -> bool {
    &&& v.len() == results.len()
    &&& forall|i: int|
        0 <= i < v.len() ==> {
            &&& (#[trigger] v[i]).path@ == render_of(results[i].path)
            &&& v[i].data@ == results[i].data
            &&& v[i].is_leaf == results[i].is_leaf
        }
}

/// Starts a walk from a state root along a hex storage key; fails when the key is not hex.
pub fn get_subtrie_node(
    storage_key_hash: &str,
    state_root_hash: Vec<u8>,
    including_children: bool,
    leaf_only: bool,
) -> (r: Result<Walker, Error>)
    ensures
        r is Ok <==> crate::nibble::all_hex(storage_key_hash@),
        r matches Ok(w) ==> w@ == initial_of(
            state_root_hash@,
            nibbles_of(storage_key_hash@),
            including_children,
            leaf_only,
        ) && w@.wf(),
        r matches Err(e) ==> (e matches Error::OptionValueIncorrect(o, _) && o@ == "storage key"@),
{
    match parse_nibbles(storage_key_hash) {
        Some(path) => Ok(Walker::new(state_root_hash, path, including_children, leaf_only)),
        None => Err(
            Error::OptionValueIncorrect(
                "storage key".to_owned(),
                "a character is not a hex digit".to_owned(),
            ),
        ),
    }
}

/// The walk after being handed the given node bytes in turn.
pub open spec fn steps_of(w: WalkerView, events: Seq<Option<Seq<u8>>>) -> WalkerView
    decreases events.len(),
{
    if events.len() == 0 {
        w
    } else {
        steps_of(step_of(w, events[0]), events.drop_first())
    }
}

/// When the store lacks the node that a walk wants, the walk stops with that node missing,
/// and stays so whatever it is handed next: its outcome is that error, never the entries
/// gathered so far.
pub proof fn lemma_missing_node_fails(w: WalkerView, more: Seq<Option<Seq<u8>>>)
    requires
        w.wf(),
        w.running(),
        w.next_ref() is Hash,
    ensures
        steps_of(step_of(w, None), more).phase == Phase::Missing,
        steps_of(step_of(w, None), more).fault == w.next_ref().bytes(),
{
    lemma_stopped_stays(step_of(w, None), more);
}

proof fn lemma_stopped_stays(w: WalkerView, more: Seq<Option<Seq<u8>>>)
    requires
        !w.running(),
    ensures
        steps_of(w, more) == w,
    decreases more.len(),
{
    if more.len() > 0 {
        lemma_stopped_stays(w, more.drop_first());
    }
}

/// Every entry is a leaf, at a path that begins with `prefix` and is longer.
pub open spec fn leaves_under(r: Seq<EntryView>, prefix: Seq<u8>) -> bool {
    forall|i: int|
        0 <= i < r.len() ==> (#[trigger] r[i]).is_leaf && r[i].path.len() > prefix.len()
            && r[i].path.take(prefix.len() as int) == prefix
}

/// The walk is harvesting below `prefix` with only leaves reported, and every node it
/// still has to visit lies strictly below the harvest root.
pub open spec fn harvesting_leaves(w: WalkerView, prefix: Seq<u8>) -> bool {
    &&& w.leaf_only
    &&& w.phase != Phase::Descend
    &&& w.phase == Phase::Harvest ==> w.queue.len() > 0
    &&& w.base == prefix
    &&& forall|i: int| 0 <= i < w.queue.len() ==> (#[trigger] w.queue[i]).rel.len() > 0
    &&& leaves_under(w.results, prefix)
}

proof fn lemma_child_items_nonempty(children: Seq<Option<RefView>>, prefix: Seq<u8>, n: nat)
    ensures
        forall|i: int|
            0 <= i < child_items(children, prefix, n).len() ==> (#[trigger] child_items(
                children,
                prefix,
                n,
            )[i]).rel.len() > 0,
    decreases n,
{
    if n > 0 {
        lemma_child_items_nonempty(children, prefix, (n - 1) as nat);
    }
}

proof fn lemma_harvest_keeps_leaves(w: WalkerView, prefix: Seq<u8>, fetched: Option<Seq<u8>>)
    requires
        harvesting_leaves(w, prefix),
    ensures
        harvesting_leaves(step_of(w, fetched), prefix),
{
    if w.running() {
        let r = w.next_ref();
        let bytes = match r {
            RefView::Inline(b) => Some(b),
            RefView::Hash(_) => fetched,
        };
        if let Some(b) = bytes {
            if let Some(n) = node_of(b) {
                let w2 = harvest_step(w, n);
                let item = w.queue[0];
                let rest = w.queue.drop_first();
                let at = w.base + item.rel;
                assert(at.take(prefix.len() as int) =~= prefix);
                match n {
                    NodeView::Extension { partial, child } => {
                        assert(w2.queue =~= rest.push(
                            PendingView { node: child, rel: item.rel + partial },
                        ));
                    },
                    NodeView::Branch { partial, children, value } => {
                        lemma_child_items_nonempty(children, item.rel + partial, 16);
                        let items = child_items(children, item.rel + partial, 16);
                        assert(w2.queue =~= rest + items);
                        assert forall|i: int| 0 <= i < w2.queue.len() implies (
                        #[trigger] w2.queue[i]).rel.len() > 0 by {
                            if i >= rest.len() {
                                assert(w2.queue[i] == items[i - rest.len()]);
                            }
                        }
                    },
                    _ => {},
                }
                assert(harvesting_leaves(w2, prefix) || harvesting_leaves(finish(w2), prefix));
            }
        }
    }
}

proof fn lemma_harvest_steps_keep_leaves(
    w: WalkerView,
    prefix: Seq<u8>,
    more: Seq<Option<Seq<u8>>>,
)
    requires
        harvesting_leaves(w, prefix),
    ensures
        harvesting_leaves(steps_of(w, more), prefix),
    decreases more.len(),
{
    if more.len() > 0 {
        lemma_harvest_keeps_leaves(w, prefix, more[0]);
        lemma_harvest_steps_keep_leaves(step_of(w, more[0]), prefix, more.drop_first());
    }
}

/// What every step keeps: the request and its options, and no entry while descending.
pub open spec fn keeps_request(
    w: WalkerView,
    path: Seq<u8>,
    include_children: bool,
    leaf_only: bool,
) -> bool {
    &&& w.path == path
    &&& w.include_children == include_children
    &&& w.leaf_only == leaf_only
    &&& w.phase == Phase::Descend ==> w.results.len() == 0
}

proof fn lemma_step_keeps_request(
    w: WalkerView,
    fetched: Option<Seq<u8>>,
    path: Seq<u8>,
    ic: bool,
    lo: bool,
)
    requires
        keeps_request(w, path, ic, lo),
    ensures
        keeps_request(step_of(w, fetched), path, ic, lo),
{
    if w.running() {
        let r = w.next_ref();
        let bytes = match r {
            RefView::Inline(b) => Some(b),
            RefView::Hash(_) => fetched,
        };
        if let Some(b) = bytes {
            if let Some(n) = node_of(b) {
                if w.phase == Phase::Descend {
                    let w2 = descend_step(w, n);
                    assert(keeps_request(w2, path, ic, lo));
                } else {
                    let w2 = harvest_step(w, n);
                    assert(keeps_request(w2, path, ic, lo));
                }
            }
        }
    }
}

proof fn lemma_steps_keep_request(
    w: WalkerView,
    events: Seq<Option<Seq<u8>>>,
    path: Seq<u8>,
    ic: bool,
    lo: bool,
)
    requires
        keeps_request(w, path, ic, lo),
    ensures
        keeps_request(steps_of(w, events), path, ic, lo),
    decreases events.len(),
{
    if events.len() > 0 {
        lemma_step_keeps_request(w, events[0], path, ic, lo);
        lemma_steps_keep_request(step_of(w, events[0]), events.drop_first(), path, ic, lo);
    }
}

/// The bytes that the walk reads at its next step.
pub open spec fn input_of(w: WalkerView, fetched: Option<Seq<u8>>) -> Option<Seq<u8>> {
    match w.next_ref() {
        RefView::Inline(b) => Some(b),
        RefView::Hash(_) => fetched,
    }
}

/// A walk with `include_children` and `leaf_only`, handed any nodes, that then reaches a
/// branch where its path ends, reports only leaves strictly below the path, whatever it is
/// handed next: never the branch's own value, nor anything above the path.
pub proof fn lemma_leaf_only_below_branch(
    root: Seq<u8>,
    path: Seq<u8>,
    before: Seq<Option<Seq<u8>>>,
    fetched: Option<Seq<u8>>,
    more: Seq<Option<Seq<u8>>>,
)
    requires
        ({
            let w = steps_of(initial_of(root, path, true, true), before);
            &&& w.phase == Phase::Descend
            &&& input_of(w, fetched) matches Some(b) && node_of(b) matches Some(
                NodeView::Branch { partial, .. },
            ) && partial.len() >= path.len() - w.consumed
        }),
    ensures
        leaves_under(
            steps_of(step_of(steps_of(initial_of(root, path, true, true), before), fetched), more).results,
            path,
        ),
{
    let w0 = initial_of(root, path, true, true);
    lemma_steps_keep_request(w0, before, path, true, true);
    let w = steps_of(w0, before);
    let b = input_of(w, fetched)->0;
    let n = node_of(b)->0;
    let k = w.path.len() - w.consumed;
    if let NodeView::Branch { partial, children, value } = n {
        lemma_child_items_nonempty(children, partial.subrange(k, partial.len() as int), 16);
    }
    let w1 = step_of(w, fetched);
    assert(harvesting_leaves(w1, path));
    lemma_harvest_steps_keep_leaves(w1, path, more);
}

} // verus!
