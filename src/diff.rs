//! Comparing the entries of one subtree under two roots.

use vstd::prelude::*;

verus! {

/// One harvested node: its path as hex nibbles, its data, and whether it is a leaf.
pub struct SubtrieEntry {
    pub path: String,
    pub data: Vec<u8>,
    pub is_leaf: bool,
}

/// How a path changed between two roots.
#[derive(Debug, Clone, Copy, PartialEq, Eq)]
pub enum NodeChangeStatus {
    Insert,
    Delete,
    Modify,
}

/// A changed path, with a code per byte: 0 for a byte kept, the new byte where it
/// changed or was inserted, the negated old byte where it was deleted.
pub struct DiffEntry {
    pub path: String,
    pub codes: Vec<i16>,
    pub status: NodeChangeStatus,
}

pub struct DiffView {
    pub path: Seq<char>,
    pub codes: Seq<i16>,
    pub status: NodeChangeStatus,
}

impl View for DiffEntry {
    type V = DiffView;

    open spec fn view(&self) -> DiffView {
        DiffView { path: self.path@, codes: self.codes@, status: self.status }
    }
}

pub open spec fn diff_views(d: Seq<DiffEntry>) -> Seq<DiffView> {
    d.map_values(|e: DiffEntry| e@)
}

/// No two entries share a path.
pub open spec fn unique_paths(s: Seq<SubtrieEntry>) -> bool {
    forall|i: int, j: int|
        0 <= i < s.len() && 0 <= j < s.len() && i != j ==> #[trigger] s[i].path@ != #[trigger] s[j].path@
}

/// The first entry with the given path.
pub open spec fn first_index(s: Seq<SubtrieEntry>, path: Seq<char>) -> Option<int> {
    if exists|i: int|
        0 <= i < s.len() && #[trigger] s[i].path@ == path && forall|j: int|
            0 <= j < i ==> #[trigger] s[j].path@ != path {
        Some(
            choose|i: int|
                0 <= i < s.len() && #[trigger] s[i].path@ == path && forall|j: int|
                    0 <= j < i ==> #[trigger] s[j].path@ != path,
        )
    } else {
        None
    }
}

/// The codes of data of equal length: 0 where a byte is kept, else the new byte.
pub open spec fn change_codes(old: Seq<u8>, new: Seq<u8>) -> Seq<i16> {
    Seq::new(new.len(), |i: int| if old[i] == new[i] { 0 } else { new[i] as i16 })
}

pub open spec fn insert_codes(d: Seq<u8>) -> Seq<i16> {
    d.map_values(|b: u8| b as i16)
}

pub open spec fn delete_codes(d: Seq<u8>) -> Seq<i16> {
    d.map_values(|b: u8| (-(b as int)) as i16)
}

/// What an entry of the later subtree contributes.
pub open spec fn after_item(before: Seq<SubtrieEntry>, a: SubtrieEntry) -> Seq<DiffView> {
    match first_index(before, a.path@) {
        Some(j) if before[j].data@.len() == a.data@.len() => {
            if before[j].data@ == a.data@ {
                Seq::empty()
            } else {
                seq![
                    DiffView {
                        path: a.path@,
                        codes: change_codes(before[j].data@, a.data@),
                        status: NodeChangeStatus::Modify,
                    },
                ]
            }
        },
        _ => seq![
            DiffView {
                path: a.path@,
                codes: insert_codes(a.data@),
                status: NodeChangeStatus::Insert,
            },
        ],
    }
}

/// What an entry of the earlier subtree contributes.
pub open spec fn before_item(after: Seq<SubtrieEntry>, b: SubtrieEntry) -> Seq<DiffView> {
    if first_index(after, b.path@) is None {
        seq![
            DiffView {
                path: b.path@,
                codes: delete_codes(b.data@),
                status: NodeChangeStatus::Delete,
            },
        ]
    } else {
        Seq::empty()
    }
}

pub open spec fn diff_after(before: Seq<SubtrieEntry>, after: Seq<SubtrieEntry>) -> Seq<
    DiffView,
>
    decreases after.len(),
{
    if after.len() == 0 {
        Seq::empty()
    } else {
        diff_after(before, after.drop_last()) + after_item(before, after.last())
    }
}

pub open spec fn diff_before(before: Seq<SubtrieEntry>, after: Seq<SubtrieEntry>) -> Seq<
    DiffView,
>
    decreases before.len(),
{
    if before.len() == 0 {
        Seq::empty()
    } else {
        diff_before(before.drop_last(), after) + before_item(after, before.last())
    }
}

/// The changes from `before` to `after`: the later entries in their order, then the
/// earlier entries that are gone, in theirs.
pub open spec fn diff_of(before: Seq<SubtrieEntry>, after: Seq<SubtrieEntry>) -> Seq<DiffView> {
    diff_after(before, after) + diff_before(before, after)
}

/// Finds the first entry with the given path.
fn find_path(s: &Vec<SubtrieEntry>, path: &String) -> (r: Option<usize>)
    ensures
        match r {
            Some(i) => first_index(s@, path@) == Some(i as int) && i < s@.len() && s@[i as int].path@
                == path@,
            None => first_index(s@, path@) is None,
        },
{
    let mut i: usize = 0;
    while i < s.len()
        invariant
            i <= s@.len(),
            forall|j: int| 0 <= j < i ==> #[trigger] s@[j].path@ != path@,
        decreases s@.len() - i,
    {
        if s[i].path == *path {
            assert(s@[i as int].path@ == path@);
            let ghost k = choose|k: int|
                0 <= k < s@.len() && #[trigger] s@[k].path@ == path@ && forall|j: int|
                    0 <= j < k ==> #[trigger] s@[j].path@ != path@;
            assert(k == i) by {
                if k < i {
                } else if k > i {
                    assert(s@[i as int].path@ == path@);
                }
            }
            return Some(i);
        }
        i = i + 1;
    }
    None
}

fn copy_path(p: &String) -> (r: String)
    ensures
        r@ == p@,
{
    p.as_str().to_owned()
}

/// Whether two byte strings are equal.
fn bytes_eq(a: &Vec<u8>, b: &Vec<u8>) -> (r: bool)
    ensures
        r == (a@ == b@),
{
    if a.len() != b.len() {
        return false;
    }
    let mut i: usize = 0;
    while i < a.len()
        invariant
            a@.len() == b@.len(),
            i <= a@.len(),
            forall|j: int| 0 <= j < i ==> a@[j] == b@[j],
        decreases a@.len() - i,
    {
        if a[i] != b[i] {
            return false;
        }
        i = i + 1;
    }
    assert(a@ =~= b@);
    true
}

fn changes(old: &Vec<u8>, new: &Vec<u8>) -> (r: Vec<i16>)
    requires
        old@.len() == new@.len(),
    ensures
        r@ == change_codes(old@, new@),
{
    let mut out: Vec<i16> = Vec::new();
    let mut i: usize = 0;
    while i < new.len()
        invariant
            old@.len() == new@.len(),
            i <= new@.len(),
            out@ == change_codes(old@, new@).take(i as int),
        decreases new@.len() - i,
    {
        let c: i16 = if old[i] == new[i] {
            0
        } else {
            new[i] as i16
        };
        out.push(c);
        assert(change_codes(old@, new@).take(i + 1) =~= change_codes(old@, new@).take(
            i as int,
        ).push(c));
        i = i + 1;
    }
    assert(change_codes(old@, new@).take(new@.len() as int) =~= change_codes(old@, new@));
    out
}

fn signed_codes(d: &Vec<u8>, negate: bool) -> (r: Vec<i16>)
    ensures
        r@ == if negate {
            delete_codes(d@)
        } else {
            insert_codes(d@)
        },
{
    let mut out: Vec<i16> = Vec::new();
    let mut i: usize = 0;
    while i < d.len()
        invariant
            i <= d@.len(),
            out@ == (if negate {
                delete_codes(d@)
            } else {
                insert_codes(d@)
            }).take(i as int),
        decreases d@.len() - i,
    {
        let c: i16 = if negate {
            -(d[i] as i16)
        } else {
            d[i] as i16
        };
        out.push(c);
        proof {
            let full = if negate {
                delete_codes(d@)
            } else {
                insert_codes(d@)
            };
            assert(full.take(i + 1) =~= full.take(i as int).push(c));
        }
        i = i + 1;
    }
    proof {
        let full = if negate {
            delete_codes(d@)
        } else {
            insert_codes(d@)
        };
        assert(full.take(d@.len() as int) =~= full);
    }
    out
}

fn diff_later(before: &Vec<SubtrieEntry>, after: &Vec<SubtrieEntry>) -> (r: Vec<DiffEntry>)
    ensures
        diff_views(r@) == diff_after(before@, after@),
{
    let mut out: Vec<DiffEntry> = Vec::new();
    let mut i: usize = 0;
    while i < after.len()
        invariant
            i <= after@.len(),
            diff_views(out@) == diff_after(before@, after@.take(i as int)),
        decreases after@.len() - i,
    {
        let a = &after[i];
        let ghost old_out = out@;
        let mut inserted = true;
        if let Some(j) = find_path(before, &a.path) {
            let b = &before[j];
            if b.data.len() == a.data.len() {
                inserted = false;
                if !bytes_eq(&b.data, &a.data) {
                    out.push(
                        DiffEntry {
                            path: copy_path(&a.path),
                            codes: changes(&b.data, &a.data),
                            status: NodeChangeStatus::Modify,
                        },
                    );
                }
            }
        }
        if inserted {
            out.push(
                DiffEntry {
                    path: copy_path(&a.path),
                    codes: signed_codes(&a.data, false),
                    status: NodeChangeStatus::Insert,
                },
            );
        }
        proof {
            assert(after@.take(i + 1).drop_last() =~= after@.take(i as int));
            assert(after@.take(i + 1).last() == after@[i as int]);
            assert(diff_views(out@) =~= diff_views(old_out) + after_item(before@, after@[i as int]));
        }
        i = i + 1;
    }
    assert(after@.take(after@.len() as int) =~= after@);
    out
}

fn diff_earlier(before: &Vec<SubtrieEntry>, after: &Vec<SubtrieEntry>, out: &mut Vec<DiffEntry>)
    ensures
        diff_views(final(out)@) == diff_views(old(out)@) + diff_before(before@, after@),
{
    let ghost start = out@;
    let mut k: usize = 0;
    while k < before.len()
        invariant
            k <= before@.len(),
            diff_views(out@) == diff_views(start) + diff_before(before@.take(k as int), after@),
        decreases before@.len() - k,
    {
        let b = &before[k];
        let ghost old_out = out@;
        if find_path(after, &b.path).is_none() {
            out.push(
                DiffEntry {
                    path: copy_path(&b.path),
                    codes: signed_codes(&b.data, true),
                    status: NodeChangeStatus::Delete,
                },
            );
        }
        proof {
            assert(before@.take(k + 1).drop_last() =~= before@.take(k as int));
            assert(before@.take(k + 1).last() == before@[k as int]);
            assert(diff_views(out@) =~= diff_views(old_out) + before_item(after@, before@[k as int]));
        }
        k = k + 1;
    }
    assert(before@.take(before@.len() as int) =~= before@);
    assert(diff_views(start) + diff_before(before@, after@) =~= diff_views(out@));
}

/// Whether no two entries share a path.
pub fn unique_entry_paths(v: &Vec<SubtrieEntry>) -> (r: bool)
    ensures
        r == unique_paths(v@),
{
    let mut i: usize = 0;
    while i < v.len()
        invariant
            i <= v@.len(),
            forall|a: int, b: int| 0 <= b < a < i ==> #[trigger] v@[a].path@ != #[trigger] v@[b].path@,
        decreases v@.len() - i,
    {
        let mut j: usize = 0;
        while j < i
            invariant
                i < v@.len(),
                j <= i,
                forall|b: int| 0 <= b < j ==> v@[i as int].path@ != #[trigger] v@[b].path@,
            decreases i - j,
        {
            if v[i].path == v[j].path {
                return false;
            }
            j = j + 1;
        }
        i = i + 1;
    }
    assert forall|a: int, b: int|
        0 <= a < v@.len() && 0 <= b < v@.len() && a != b implies #[trigger] v@[a].path@
        != #[trigger] v@[b].path@ by {
        if a < b {
            assert(v@[b].path@ != v@[a].path@);
        }
    }
    true
}

/// Compares the entries of one subtree under two roots, path by path.
pub fn diff(before: &Vec<SubtrieEntry>, after: &Vec<SubtrieEntry>) -> (r: Vec<DiffEntry>)
    requires
        unique_paths(before@),
        unique_paths(after@),
    ensures
        diff_views(r@) == diff_of(before@, after@),
{
    let mut out = diff_later(before, after);
    diff_earlier(before, after, &mut out);
    out
}

proof fn lemma_first_index_unique(s: Seq<SubtrieEntry>, i: int)
    requires
        unique_paths(s),
        0 <= i < s.len(),
    ensures
        first_index(s, s[i].path@) == Some(i),
{
    let p = s[i].path@;
    assert(forall|j: int| 0 <= j < i ==> #[trigger] s[j].path@ != p);
    let c = choose|c: int|
        0 <= c < s.len() && #[trigger] s[c].path@ == p && forall|j: int|
            0 <= j < c ==> #[trigger] s[j].path@ != p;
    assert(c == i);
}

proof fn lemma_self_later(x: Seq<SubtrieEntry>, n: int)
    requires
        unique_paths(x),
        0 <= n <= x.len(),
    ensures
        diff_after(x, x.take(n)) == Seq::<DiffView>::empty(),
    decreases n,
{
    if n > 0 {
        lemma_self_later(x, n - 1);
        assert(x.take(n).drop_last() =~= x.take(n - 1));
        lemma_first_index_unique(x, n - 1);
        assert(after_item(x, x[n - 1]) =~= Seq::<DiffView>::empty());
        assert(diff_after(x, x.take(n)) =~= Seq::<DiffView>::empty());
    }
}

/// Some entry has the path.
pub open spec fn has_path(s: Seq<SubtrieEntry>, p: Seq<char>) -> bool {
    exists|j: int| 0 <= j < s.len() && #[trigger] s[j].path@ == p
}

/// Every path of `b` is a path of `a`.
pub open spec fn paths_within(b: Seq<SubtrieEntry>, a: Seq<SubtrieEntry>) -> bool {
    forall|j: int| 0 <= j < b.len() ==> #[trigger] has_path(a, b[j].path@)
}

proof fn lemma_same_paths_earlier(b: Seq<SubtrieEntry>, a: Seq<SubtrieEntry>, n: int)
    requires
        unique_paths(a),
        paths_within(b, a),
        0 <= n <= b.len(),
    ensures
        diff_before(b.take(n), a) == Seq::<DiffView>::empty(),
    decreases n,
{
    if n > 0 {
        lemma_same_paths_earlier(b, a, n - 1);
        assert(b.take(n).drop_last() =~= b.take(n - 1));
        assert(has_path(a, b[n - 1].path@));
        let i = choose|i: int| 0 <= i < a.len() && #[trigger] a[i].path@ == b[n - 1].path@;
        lemma_first_index_unique(a, i);
        assert(b.take(n).last() == b[n - 1]);
        assert(diff_before(b.take(n), a) =~= Seq::<DiffView>::empty());
    }
}

/// Comparing a subtree with itself finds no change, when no two entries share a path.
pub proof fn lemma_diff_self(x: Seq<SubtrieEntry>)
    requires
        unique_paths(x),
    ensures
        diff_of(x, x) == Seq::<DiffView>::empty(),
{
    lemma_self_later(x, x.len() as int);
    assert forall|j: int| 0 <= j < x.len() implies #[trigger] has_path(x, x[j].path@) by {
        assert(x[j].path@ == x[j].path@);
    }
    lemma_same_paths_earlier(x, x, x.len() as int);
    assert(x.take(x.len() as int) =~= x);
    assert(diff_of(x, x) =~= Seq::<DiffView>::empty());
}

/// Two subtrees have the same paths, and the same data at each path but one, where the
/// length of the data differs.
pub open spec fn one_length_changed(b: Seq<SubtrieEntry>, a: Seq<SubtrieEntry>, k: int) -> bool {
    &&& 0 <= k < a.len()
    &&& paths_within(b, a)
    &&& paths_within(a, b)
    &&& forall|i: int, j: int|
        0 <= i < a.len() && 0 <= j < b.len() && i != k && #[trigger] b[j].path@
            == #[trigger] a[i].path@ ==> b[j].data@ == a[i].data@
    &&& forall|j: int|
        0 <= j < b.len() && #[trigger] b[j].path@ == a[k].path@ ==> b[j].data@.len()
            != a[k].data@.len()
}

proof fn lemma_one_change_later(b: Seq<SubtrieEntry>, a: Seq<SubtrieEntry>, k: int, n: int)
    requires
        unique_paths(b),
        one_length_changed(b, a, k),
        0 <= n <= a.len(),
    ensures
        diff_after(b, a.take(n)) == (if n <= k {
            Seq::<DiffView>::empty()
        } else {
            seq![
                DiffView {
                    path: a[k].path@,
                    codes: insert_codes(a[k].data@),
                    status: NodeChangeStatus::Insert,
                },
            ]
        }),
    decreases n,
{
    if n > 0 {
        lemma_one_change_later(b, a, k, n - 1);
        assert(a.take(n).drop_last() =~= a.take(n - 1));
        assert(a.take(n).last() == a[n - 1]);
        assert(has_path(b, a[n - 1].path@));
        let j = choose|j: int| 0 <= j < b.len() && #[trigger] b[j].path@ == a[n - 1].path@;
        lemma_first_index_unique(b, j);
        if n - 1 == k {
            assert(diff_after(b, a.take(n)) =~= seq![
                DiffView {
                    path: a[k].path@,
                    codes: insert_codes(a[k].data@),
                    status: NodeChangeStatus::Insert,
                },
            ]);
        } else {
            assert(b[j].data@ == a[n - 1].data@);
            assert(after_item(b, a[n - 1]) =~= Seq::<DiffView>::empty());
            assert(diff_after(b, a.take(n)) =~= diff_after(b, a.take(n - 1)));
        }
    }
}

/// When two subtrees have the same paths and differ only in the length of the data at one
/// path, the comparison finds exactly one change: that path, inserted with its new data,
/// and no modification or deletion.
pub proof fn lemma_diff_length_change(b: Seq<SubtrieEntry>, a: Seq<SubtrieEntry>, k: int)
    requires
        unique_paths(b),
        unique_paths(a),
        one_length_changed(b, a, k),
    ensures
        diff_of(b, a) == seq![
            DiffView {
                path: a[k].path@,
                codes: insert_codes(a[k].data@),
                status: NodeChangeStatus::Insert,
            },
        ],
{
    lemma_one_change_later(b, a, k, a.len() as int);
    lemma_same_paths_earlier(b, a, b.len() as int);
    assert(a.take(a.len() as int) =~= a);
    assert(b.take(b.len() as int) =~= b);
    assert(diff_of(b, a) =~= seq![
        DiffView {
            path: a[k].path@,
            codes: insert_codes(a[k].data@),
            status: NodeChangeStatus::Insert,
        },
    ]);
}

} // verus!
