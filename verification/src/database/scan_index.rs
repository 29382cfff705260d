//! The scan index: for each scan type, the records scanned by it, ordered
//! by phase (PHAS) and then by name.
use vstd::prelude::*;
use crate::record::{scan_code, ScanType};
use crate::text::{chars_of, string_views};

verus! {

/// Whether `a` comes before `b` in lexicographic order of code points.
pub open spec fn text_lt(a: Seq<char>, b: Seq<char>) -> bool
    decreases a.len(),
{
    if b.len() == 0 {
        false
    } else if a.len() == 0 {
        true
    } else if a[0] != b[0] {
        (a[0] as int) < (b[0] as int)
    } else {
        text_lt(a.drop_first(), b.drop_first())
    }
}

proof fn lemma_text_lt_irreflexive(a: Seq<char>)
    ensures
        !text_lt(a, a),
    decreases a.len(),
{
    if a.len() > 0 {
        lemma_text_lt_irreflexive(a.drop_first());
    }
}

proof fn lemma_text_lt_transitive(a: Seq<char>, b: Seq<char>, c: Seq<char>)
    requires
        text_lt(a, b),
        text_lt(b, c),
    ensures
        text_lt(a, c),
    decreases a.len(),
{
    if a.len() > 0 && b.len() > 0 && c.len() > 0 && a[0] == b[0] && b[0] == c[0] {
        lemma_text_lt_transitive(a.drop_first(), b.drop_first(), c.drop_first());
    }
}

proof fn lemma_text_lt_total(a: Seq<char>, b: Seq<char>)
    requires
        a != b,
    ensures
        text_lt(a, b) || text_lt(b, a),
    decreases a.len(),
{
    if a.len() == 0 && b.len() == 0 {
        assert(a =~= b);
    }
    if a.len() > 0 && b.len() > 0 && a[0] != b[0] {
        assert((a[0] as int) != (b[0] as int));
    }
    if a.len() > 0 && b.len() > 0 && a[0] == b[0] {
        if a.drop_first() == b.drop_first() {
            assert(a =~= seq![a[0]] + a.drop_first());
            assert(b =~= seq![b[0]] + b.drop_first());
        }
        lemma_text_lt_total(a.drop_first(), b.drop_first());
    }
}

/// The order of index entries: by phase, then by name.
pub open spec fn entry_lt(a: (i16, Seq<char>), b: (i16, Seq<char>)) -> bool {
    a.0 < b.0 || (a.0 == b.0 && text_lt(a.1, b.1))
}

proof fn lemma_entry_order(a: (i16, Seq<char>), b: (i16, Seq<char>), c: (i16, Seq<char>))
    ensures
        !entry_lt(a, a),
        entry_lt(a, b) && entry_lt(b, c) ==> entry_lt(a, c),
        a != b ==> entry_lt(a, b) || entry_lt(b, a),
{
    lemma_text_lt_irreflexive(a.1);
    if entry_lt(a, b) && entry_lt(b, c) && a.0 == b.0 && b.0 == c.0 {
        lemma_text_lt_transitive(a.1, b.1, c.1);
    }
    if a != b && a.0 == b.0 {
        lemma_text_lt_total(a.1, b.1);
    }
}

/// A list of entries in strictly increasing order.
pub open spec fn strictly_sorted(s: Seq<(i16, Seq<char>)>) -> bool {
    forall|i: int, j: int| 0 <= i < j < s.len() ==> entry_lt(#[trigger] s[i], #[trigger] s[j])
}

/// The entries of a list of (phase, name) pairs as character sequences.
pub open spec fn entries_view(v: Seq<(i16, String)>) -> Seq<(i16, Seq<char>)> {
    Seq::new(v.len(), |i: int| (v[i].0, v[i].1@))
}

/// The records of each periodic, event or I/O scan type.
pub struct ScanIndex {
    lists: Vec<Vec<(i16, String)>>,
}

/// Compares two names: -1, 0 or 1.
fn compare_text(a: &Vec<char>, b: &Vec<char>) -> (r: i8)
    ensures
        r == -1 <==> text_lt(a@, b@),
        r == 1 <==> text_lt(b@, a@),
        r == 0 <==> a@ == b@,
{
    let mut i: usize = 0;
    assert(a@.subrange(0, a@.len() as int) =~= a@);
    assert(b@.subrange(0, b@.len() as int) =~= b@);
    assert(a@.subrange(0, 0) =~= b@.subrange(0, 0));
    while i < a.len() && i < b.len() && a[i] == b[i]
        invariant
            i <= a@.len(),
            i <= b@.len(),
            a@.subrange(0, i as int) == b@.subrange(0, i as int),
            text_lt(a@, b@) == text_lt(a@.subrange(i as int, a@.len() as int), b@.subrange(i as int, b@.len() as int)),
            text_lt(b@, a@) == text_lt(b@.subrange(i as int, b@.len() as int), a@.subrange(i as int, a@.len() as int)),
        decreases a.len() - i,
    {
        proof {
            let ta = a@.subrange(i as int, a@.len() as int);
            let tb = b@.subrange(i as int, b@.len() as int);
            assert(ta.drop_first() =~= a@.subrange(i + 1, a@.len() as int));
            assert(tb.drop_first() =~= b@.subrange(i + 1, b@.len() as int));
            assert(a@.subrange(0, i + 1) =~= a@.subrange(0, i as int).push(a@[i as int]));
            assert(b@.subrange(0, i + 1) =~= b@.subrange(0, i as int).push(b@[i as int]));
        }
        i = i + 1;
    }
    proof {
        lemma_text_lt_irreflexive(a@);
        let ta = a@.subrange(i as int, a@.len() as int);
        let tb = b@.subrange(i as int, b@.len() as int);
        if i == a.len() && i == b.len() {
            assert(a@ =~= a@.subrange(0, i as int));
            assert(b@ =~= b@.subrange(0, i as int));
        }
        if a@ == b@ {
            assert(i == a.len() && i == b.len());
        }
    }
    if i < a.len() && i < b.len() {
        if a[i] < b[i] { -1 } else { 1 }
    } else if i < b.len() {
        -1
    } else if i < a.len() {
        1
    } else {
        0
    }
}

/// Compares the entry `(phas, name)` with `(p2, n2)`: -1, 0 or 1.
fn compare_entry(phas: i16, name: &Vec<char>, p2: i16, n2: &Vec<char>) -> (r: i8)
    ensures
        r == -1 <==> entry_lt((phas, name@), (p2, n2@)),
        r == 1 <==> entry_lt((p2, n2@), (phas, name@)),
        r == 0 <==> (phas, name@) == (p2, n2@),
{
    if phas < p2 {
        -1
    } else if phas > p2 {
        1
    } else {
        compare_text(name, n2)
    }
}

/// Compares the entry at `p` of the list with `(phas, key)`.
fn compare_at(list: &Vec<(i16, String)>, p: usize, phas: i16, key: &Vec<char>) -> (r: i8)
    requires
        p < list@.len(),
    ensures
        r == -1 <==> entry_lt(entries_view(list@)[p as int], (phas, key@)),
        r == 1 <==> entry_lt((phas, key@), entries_view(list@)[p as int]),
        r == 0 <==> entries_view(list@)[p as int] == (phas, key@),
{
    let nv = chars_of(list[p].1.as_str());
    assert(entries_view(list@)[p as int] == (list@[p as int].0, nv@));
    compare_entry(list[p].0, &nv, phas, key)
}

/// Inserts `(phas, name)` into a strictly sorted list, keeping it sorted;
/// an entry already there is not added twice.
fn insert_entry(list: &mut Vec<(i16, String)>, phas: i16, name: &str)
    requires
        strictly_sorted(entries_view(old(list)@)),
    ensures
        strictly_sorted(entries_view(final(list)@)),
        entries_view(final(list)@).to_set() == entries_view(old(list)@).to_set().insert((phas, name@)),
{
    let key = chars_of(name);
    let ghost k = (phas, name@);
    let ghost s0 = entries_view(list@);
    let mut p: usize = 0;
    let mut go = false;
    if p < list.len() {
        let c0 = compare_at(list, p, phas, &key);
        go = c0 == -1;
    }
    while go
        invariant
            p <= list@.len(),
            s0 == entries_view(list@),
            key@ == name@,
            k == (phas, name@),
            forall|i: int| 0 <= i < p ==> entry_lt(#[trigger] s0[i], k),
            go ==> p < list@.len() && entry_lt(s0[p as int], k),
            !go ==> p >= list@.len() || !entry_lt(s0[p as int], k),
        decreases list.len() - p,
    {
        p = p + 1;
        go = false;
        if p < list.len() {
            let c1 = compare_at(list, p, phas, &key);
            go = c1 == -1;
        }
    }
    let c: i8 = if p < list.len() { compare_at(list, p, phas, &key) } else { 1 };
    proof {
        lemma_entry_order(k, k, k);
    }
    if p < list.len() && c == 0 {
        proof {
            assert(s0[p as int] == k);
            assert(s0.to_set() =~= s0.to_set().insert(k));
        }
        return;
    }
    list.insert(p, (phas, name.to_owned()));
    proof {
        let s1 = entries_view(list@);
        assert(s1 =~= s0.insert(p as int, k));
        if p < s0.len() {
            lemma_entry_order(s0[p as int], k, k);
            assert(entry_lt(k, s0[p as int]));
        }
        assert(strictly_sorted(s0));
        assert forall|i: int, j: int| 0 <= i < j < s1.len() implies entry_lt(#[trigger] s1[i], #[trigger] s1[j]) by {
            if j < p {
                assert(s1[i] == s0[i] && s1[j] == s0[j]);
                assert(entry_lt(s0[i], s0[j]));
            } else if j == p {
                assert(s1[i] == s0[i] && s1[j] == k);
            } else if i == p {
                assert(s1[i] == k && s1[j] == s0[j - 1]);
                if j - 1 > p {
                    assert(entry_lt(s0[p as int], s0[j - 1]));
                    lemma_entry_order(k, s0[p as int], s0[j - 1]);
                }
            } else if i < p {
                assert(s1[i] == s0[i] && s1[j] == s0[j - 1]);
                assert(entry_lt(s0[i], s0[j - 1]));
            } else {
                assert(s1[i] == s0[i - 1] && s1[j] == s0[j - 1]);
                assert(entry_lt(s0[i - 1], s0[j - 1]));
            }
        }
        assert forall|e: (i16, Seq<char>)| s1.to_set().contains(e) <==> s0.to_set().insert(k).contains(e) by {
            if s1.to_set().contains(e) {
                let i = choose|i: int| 0 <= i < s1.len() && s1[i] == e;
                if i < p {
                    assert(s0[i] == e);
                } else if i > p {
                    assert(s0[i - 1] == e);
                }
            }
            if s0.to_set().contains(e) {
                let i = choose|i: int| 0 <= i < s0.len() && s0[i] == e;
                if i < p {
                    assert(s1[i] == e);
                } else {
                    assert(s1[i + 1] == e);
                }
            }
            if e == k {
                assert(s1[p as int] == k);
            }
        }
        assert(s1.to_set() =~= s0.to_set().insert(k));
    }
}

/// Removes `(phas, name)` from a strictly sorted list, if it is there.
fn remove_entry(list: &mut Vec<(i16, String)>, phas: i16, name: &str)
    requires
        strictly_sorted(entries_view(old(list)@)),
    ensures
        strictly_sorted(entries_view(final(list)@)),
        entries_view(final(list)@).to_set() == entries_view(old(list)@).to_set().remove((phas, name@)),
{
    let key = chars_of(name);
    let ghost k = (phas, name@);
    let ghost s0 = entries_view(list@);
    let mut p: usize = 0;
    let mut go = false;
    if p < list.len() {
        let c0 = compare_at(list, p, phas, &key);
        go = c0 != 0;
    }
    while go
        invariant
            p <= list@.len(),
            s0 == entries_view(list@),
            key@ == name@,
            k == (phas, name@),
            forall|i: int| 0 <= i < p ==> #[trigger] s0[i] != k,
            go ==> p < list@.len() && s0[p as int] != k,
            !go ==> p >= list@.len() || s0[p as int] == k,
        decreases list.len() - p,
    {
        p = p + 1;
        go = false;
        if p < list.len() {
            let c1 = compare_at(list, p, phas, &key);
            go = c1 != 0;
        }
    }
    if p >= list.len() {
        proof {
            assert(!s0.to_set().contains(k));
            assert(s0.to_set() =~= s0.to_set().remove(k));
        }
        return;
    }
    let ghost at = p;
    list.remove(p);
    proof {
        let s1 = entries_view(list@);
        assert(s1 =~= s0.remove(p as int));
        assert(s0[p as int] == k);
        assert forall|e: (i16, Seq<char>)| s1.to_set().contains(e) <==> s0.to_set().remove(k).contains(e) by {
            if s1.to_set().contains(e) {
                let i = choose|i: int| 0 <= i < s1.len() && s1[i] == e;
                if i < p {
                    assert(s0[i] == e);
                    assert(entry_lt(s0[i], s0[p as int]));
                    lemma_entry_order(e, e, e);
                } else {
                    assert(s0[i + 1] == e);
                    assert(entry_lt(s0[p as int], s0[i + 1]));
                    lemma_entry_order(e, e, e);
                }
            }
            if s0.to_set().remove(k).contains(e) {
                let i = choose|i: int| 0 <= i < s0.len() && s0[i] == e;
                if i < p {
                    assert(s1[i] == e);
                } else {
                    assert(i != p);
                    assert(s1[i - 1] == e);
                }
            }
        }
        assert(s1.to_set() =~= s0.to_set().remove(k));
        assert forall|i: int, j: int| 0 <= i < j < s1.len() implies entry_lt(#[trigger] s1[i], #[trigger] s1[j]) by {
            if j < p {
            } else if i < p {
                assert(s1[j] == s0[j + 1]);
            } else {
                assert(s1[i] == s0[i + 1]);
                assert(s1[j] == s0[j + 1]);
            }
        }
    }
}

/// The number of scan types.
pub open spec fn scan_kinds() -> int {
    10
}

impl ScanIndex {
    /// Every list strictly sorted, one list per scan type.
    pub closed spec fn wf(&self) -> bool {
        &&& self.lists@.len() == scan_kinds()
        &&& forall|k: int| 0 <= k < scan_kinds() ==> strictly_sorted(#[trigger] entries_view(self.lists@[k]@))
    }

    /// The (phase, name) entries of scan type `t`, in order.
    pub closed spec fn listed(&self, t: ScanType) -> Seq<(i16, Seq<char>)> {
        entries_view(self.lists@[scan_code(t) as int]@)
    }

    /// Facts the lists of a well-formed index keep.
    pub proof fn lemma_sorted(&self, t: ScanType)
        requires
            self.wf(),
        ensures
            strictly_sorted(self.listed(t)),
    {
        assert(strictly_sorted(entries_view(self.lists@[scan_code(t) as int]@)));
    }

    pub fn new() -> (r: Self)
        ensures
            r.wf(),
            forall|t: ScanType| #[trigger] r.listed(t) == Seq::<(i16, Seq<char>)>::empty(),
    {
        let mut lists: Vec<Vec<(i16, String)>> = Vec::new();
        let mut k: usize = 0;
        while k < 10
            invariant
                k <= 10,
                lists@.len() == k,
                forall|i: int| 0 <= i < k ==> #[trigger] lists@[i]@.len() == 0,
            decreases 10 - k,
        {
            lists.push(Vec::new());
            k = k + 1;
        }
        let r = ScanIndex { lists };
        assert forall|t: ScanType| #[trigger] r.listed(t) == Seq::<(i16, Seq<char>)>::empty() by {
            assert(r.lists@[scan_code(t) as int]@.len() == 0);
            assert(r.listed(t) =~= Seq::<(i16, Seq<char>)>::empty());
        }
        assert forall|k: int| 0 <= k < scan_kinds() implies strictly_sorted(#[trigger] entries_view(r.lists@[k]@)) by {
            assert(r.lists@[k]@.len() == 0);
        }
        r
    }

    /// Update the index when a record's SCAN or PHAS field changes: the
    /// record leaves the list of its old scan type and joins the list of
    /// the new one (passive records are not listed).
    pub fn update(&mut self, name: &str, old_scan: ScanType, new_scan: ScanType, old_phas: i16, new_phas: i16)
        requires
            old(self).wf(),
        ensures
            final(self).wf(),
            forall|t: ScanType| #[trigger] final(self).listed(t).to_set() == {
                let s = old(self).listed(t).to_set();
                let s1 = if t == old_scan && old_scan != ScanType::Passive { s.remove((old_phas, name@)) } else { s };
                if t == new_scan && new_scan != ScanType::Passive { s1.insert((new_phas, name@)) } else { s1 }
            },
    {
        let ghost before = *self;
        if old_scan != ScanType::Passive {
            let k = old_scan.code() as usize;
            let mut list: Vec<(i16, String)> = Vec::new();
            std::mem::swap(&mut list, &mut self.lists[k]);
            remove_entry(&mut list, old_phas, name);
            self.lists.set(k, list);
        }
        let ghost mid = *self;
        proof {
            assert forall|t: ScanType| #[trigger] mid.listed(t).to_set() == (if t == old_scan && old_scan != ScanType::Passive {
                before.listed(t).to_set().remove((old_phas, name@))
            } else {
                before.listed(t).to_set()
            }) by {
                if scan_code(t) == scan_code(old_scan) && t != old_scan {
                    crate::record::scan_number_round_trip(t);
                    crate::record::scan_number_round_trip(old_scan);
                }
            }
        }
        if new_scan != ScanType::Passive {
            let k = new_scan.code() as usize;
            let mut list: Vec<(i16, String)> = Vec::new();
            std::mem::swap(&mut list, &mut self.lists[k]);
            insert_entry(&mut list, new_phas, name);
            self.lists.set(k, list);
        }
        proof {
            assert forall|t: ScanType| #[trigger] self.listed(t).to_set() == (if t == new_scan && new_scan != ScanType::Passive {
                mid.listed(t).to_set().insert((new_phas, name@))
            } else {
                mid.listed(t).to_set()
            }) by {
                if scan_code(t) == scan_code(new_scan) && t != new_scan {
                    crate::record::scan_number_round_trip(t);
                    crate::record::scan_number_round_trip(new_scan);
                }
            }
        }
    }

    /// Get record names for a given scan type, sorted by PHAS (then name).
    pub fn records_for_scan(&self, scan_type: ScanType) -> (r: Vec<String>)
        requires
            self.wf(),
        ensures
            string_views(r@) == self.listed(scan_type).map_values(|e: (i16, Seq<char>)| e.1),
    {
        let list = &self.lists[scan_type.code() as usize];
        let mut r: Vec<String> = Vec::new();
        let mut i: usize = 0;
        while i < list.len()
            invariant
                i <= list@.len(),
                *list == self.lists@[scan_code(scan_type) as int],
                string_views(r@) == entries_view(list@).subrange(0, i as int).map_values(|e: (i16, Seq<char>)| e.1),
            decreases list.len() - i,
        {
            let ghost before = string_views(r@);
            r.push(list[i].1.clone());
            assert(string_views(r@) =~= before.push(list@[i as int].1@));
            assert(entries_view(list@).subrange(0, i + 1).map_values(|e: (i16, Seq<char>)| e.1) =~= entries_view(list@).subrange(0, i as int).map_values(|e: (i16, Seq<char>)| e.1).push(list@[i as int].1@));
            i = i + 1;
        }
        assert(entries_view(list@).subrange(0, list@.len() as int) =~= entries_view(list@));
        r
    }
}

/// The records of a scan type come out in phase order, and by name within
/// a phase, each once.
pub proof fn scan_lists_ordered(index: ScanIndex, t: ScanType)
    requires
        index.wf(),
    ensures
        forall|i: int, j: int| 0 <= i < j < index.listed(t).len() ==> index.listed(t)[i].0 <= index.listed(t)[j].0,
        forall|i: int, j: int| 0 <= i < j < index.listed(t).len() ==> index.listed(t)[i] != index.listed(t)[j],
{
    index.lemma_sorted(t);
    assert forall|i: int, j: int| 0 <= i < j < index.listed(t).len() implies index.listed(t)[i] != index.listed(t)[j] by {
        lemma_entry_order(index.listed(t)[i], index.listed(t)[i], index.listed(t)[i]);
        assert(entry_lt(index.listed(t)[i], index.listed(t)[j]));
    }
}

} // verus!
