//! A map keyed by names, kept as a list of entries with distinct keys in
//! insertion order. It stands where the server keys tables by strings
//! (macro tables, access groups, registries).
use vstd::prelude::*;
use crate::text::{chars_eq, chars_of};

verus! {

#[derive(Debug, Clone)]
pub struct NameMap<V> {
    entries: Vec<(String, V)>,
}

/// The keys of a list of entries, in order.
pub open spec fn keys_of<V>(s: Seq<(String, V)>) -> Seq<Seq<char>> {
    Seq::new(s.len(), |i: int| s[i].0@)
}

pub open spec fn distinct_keys(k: Seq<Seq<char>>) -> bool {
    forall|i: int, j: int| 0 <= i < j < k.len() ==> k[i] != k[j]
}

impl<V> NameMap<V> {
    /// Well-formedness: no key occurs twice.
    pub closed spec fn wf(&self) -> bool {
        distinct_keys(keys_of(self.entries@))
    }

    /// The keys in insertion order.
    pub closed spec fn key_seq(&self) -> Seq<Seq<char>> {
        keys_of(self.entries@)
    }

    /// The map from each key to its value.
    pub closed spec fn map(&self) -> Map<Seq<char>, V> {
        Map::new(|k: Seq<char>| self.has_key(k), |k: Seq<char>| self.entries@[self.index_of(k)].1)
    }

    closed spec fn has_key(&self, k: Seq<char>) -> bool {
        exists|i: int| 0 <= i < self.entries@.len() && self.entries@[i].0@ == k
    }

    closed spec fn index_of(&self, k: Seq<char>) -> int {
        choose|i: int| 0 <= i < self.entries@.len() && self.entries@[i].0@ == k
    }

    /// The value at the `i`-th key in insertion order.
    pub closed spec fn value_at(&self, i: int) -> V {
        self.entries@[i].1
    }

    proof fn lemma_lookup(&self, i: int)
        requires
            distinct_keys(keys_of(self.entries@)),
            0 <= i < self.entries@.len(),
        ensures
            self.map().contains_key(self.entries@[i].0@),
            self.map()[self.entries@[i].0@] == self.entries@[i].1,
    {
        let k = self.entries@[i].0@;
        assert(keys_of(self.entries@)[i] == k);
        assert(self.has_key(k));
        let j = self.index_of(k);
        assert(keys_of(self.entries@)[j] == k);
        if j < i {
            assert(keys_of(self.entries@)[j] != keys_of(self.entries@)[i]);
        } else if i < j {
            assert(keys_of(self.entries@)[i] != keys_of(self.entries@)[j]);
        }
        assert(j == i);
    }

    /// Facts that tie the key order to the map, for callers that walk keys.
    pub proof fn lemma_keys(&self)
        requires
            self.wf(),
        ensures
            distinct_keys(self.key_seq()),
            forall|k: Seq<char>| #[trigger]
                self.map().contains_key(k) <==> self.key_seq().contains(k),
            forall|i: int|
                0 <= i < self.key_seq().len() ==> #[trigger] self.map()[self.key_seq()[i]]
                    == self.value_at(i),
    {
        assert forall|k: Seq<char>| #[trigger]
            self.map().contains_key(k) <==> self.key_seq().contains(k) by {
            if self.map().contains_key(k) {
                let i = choose|i: int| 0 <= i < self.entries@.len() && self.entries@[i].0@ == k;
                assert(self.key_seq()[i] == k);
            }
            if self.key_seq().contains(k) {
                let i = choose|i: int| 0 <= i < self.key_seq().len() && self.key_seq()[i] == k;
                assert(self.entries@[i].0@ == k);
            }
        }
        assert forall|i: int| 0 <= i < self.key_seq().len() implies #[trigger] self.map()[self.key_seq()[i]]
            == self.value_at(i) by {
            self.lemma_lookup(i);
        }
    }

    pub fn new() -> (r: Self)
        ensures
            r.wf(),
            r.map() == Map::<Seq<char>, V>::empty(),
            r.key_seq() == Seq::<Seq<char>>::empty(),
    {
        let r = NameMap { entries: Vec::new() };
        assert(r.map() =~= Map::<Seq<char>, V>::empty());
        assert(r.key_seq() =~= Seq::<Seq<char>>::empty());
        r
    }

    pub fn len(&self) -> (r: usize)
        requires
            self.wf(),
        ensures
            r == self.key_seq().len(),
            r == self.map().len(),
    {
        proof {
            self.lemma_keys();
            self.key_seq().unique_seq_to_set();
            assert(self.map().dom() =~= self.key_seq().to_set());
        }
        self.entries.len()
    }

    pub fn is_empty(&self) -> (r: bool)
        requires
            self.wf(),
        ensures
            r == (self.map().len() == 0),
            r == (self.key_seq().len() == 0),
    {
        self.len() == 0
    }

    /// Position of the key `k` in insertion order.
    fn find(&self, k: &Vec<char>) -> (r: Option<usize>)
        requires
            self.wf(),
        ensures
            match r {
                Some(i) => i < self.entries@.len() && self.entries@[i as int].0@ == k@,
                None => forall|i: int| 0 <= i < self.entries@.len() ==> self.entries@[i].0@ != k@,
            },
    {
        let mut i: usize = 0;
        while i < self.entries.len()
            invariant
                i <= self.entries@.len(),
                forall|j: int| 0 <= j < i ==> self.entries@[j].0@ != k@,
            decreases self.entries.len() - i,
        {
            let kv = chars_of(self.entries[i].0.as_str());
            if chars_eq(&kv, k) {
                return Some(i);
            }
            i = i + 1;
        }
        None
    }

    /// The value stored under the key `k`.
    pub fn get_chars(&self, k: &Vec<char>) -> (r: Option<&V>)
        requires
            self.wf(),
        ensures
            match r {
                Some(v) => self.map().contains_key(k@) && *v == self.map()[k@],
                None => !self.map().contains_key(k@),
            },
    {
        match self.find(k) {
            Some(i) => {
                proof {
                    self.lemma_lookup(i as int);
                }
                Some(&self.entries[i].1)
            },
            None => None,
        }
    }

    /// The value stored under the key `k`.
    pub fn get(&self, k: &str) -> (r: Option<&V>)
        requires
            self.wf(),
        ensures
            match r {
                Some(v) => self.map().contains_key(k@) && *v == self.map()[k@],
                None => !self.map().contains_key(k@),
            },
    {
        let kv = chars_of(k);
        self.get_chars(&kv)
    }

    pub fn contains_key(&self, k: &str) -> (r: bool)
        requires
            self.wf(),
        ensures
            r == self.map().contains_key(k@),
    {
        self.get(k).is_some()
    }

    /// The key and value at position `i` of insertion order.
    pub fn entry(&self, i: usize) -> (r: (&String, &V))
        requires
            self.wf(),
            i < self.key_seq().len(),
        ensures
            r.0@ == self.key_seq()[i as int],
            *r.1 == self.value_at(i as int),
            *r.1 == self.map()[r.0@],
    {
        proof {
            self.lemma_lookup(i as int);
        }
        (&self.entries[i].0, &self.entries[i].1)
    }

    /// Binds `k` to `v`; a binding already there is replaced in place.
    pub fn insert(&mut self, k: String, v: V)
        requires
            old(self).wf(),
        ensures
            final(self).wf(),
            final(self).map() == old(self).map().insert(k@, v),
            old(self).map().contains_key(k@) ==> final(self).key_seq() == old(self).key_seq(),
            !old(self).map().contains_key(k@) ==> final(self).key_seq() == old(self).key_seq().push(k@),
    {
        proof {
            self.lemma_keys();
        }
        let kv = chars_of(k.as_str());
        let ghost old_entries = self.entries@;
        let ghost kk = k@;
        match self.find(&kv) {
            Some(i) => {
                let mut entries = Vec::new();
                std::mem::swap(&mut entries, &mut self.entries);
                entries.set(i, (k, v));
                proof {
                    assert(keys_of(entries@) =~= keys_of(old_entries));
                }
                self.entries = entries;
                proof {
                    self.lemma_keys();
                    assert(self.key_seq() =~= old(self).key_seq());
                    assert(old(self).key_seq()[i as int] == kk);
                    assert(self.key_seq()[i as int] == kk);
                    assert forall|key: Seq<char>| #[trigger] self.map().contains_key(key) <==> old(self).map().insert(kk, v).contains_key(key) by {
                        if key == kk {
                            assert(self.key_seq().contains(key));
                        }
                    }
                    assert forall|key: Seq<char>| self.map().contains_key(key) implies #[trigger] self.map()[key] == old(self).map().insert(kk, v)[key] by {
                        let j = choose|j: int| 0 <= j < self.key_seq().len() && self.key_seq()[j] == key;
                        assert(self.map()[self.key_seq()[j]] == self.value_at(j));
                        if j == i {
                        } else {
                            assert(old(self).key_seq()[j] == key);
                            assert(old(self).map()[old(self).key_seq()[j]] == old(self).value_at(j));
                        }
                    }
                    assert(self.map() =~= old(self).map().insert(kk, v));
                }
            },
            None => {
                let mut entries = Vec::new();
                std::mem::swap(&mut entries, &mut self.entries);
                entries.push((k, v));
                proof {
                    assert(keys_of(entries@) =~= keys_of(old_entries).push(kk));
                    assert(!keys_of(old_entries).contains(kk));
                }
                self.entries = entries;
                proof {
                    self.lemma_keys();
                    assert(self.key_seq() =~= old(self).key_seq().push(kk));
                    assert(self.key_seq()[old_entries.len() as int] == kk);
                    assert forall|key: Seq<char>| #[trigger] self.map().contains_key(key) <==> old(self).map().insert(kk, v).contains_key(key) by {
                        if key != kk && self.key_seq().contains(key) {
                            let j = choose|j: int| 0 <= j < self.key_seq().len() && self.key_seq()[j] == key;
                            assert(old(self).key_seq()[j] == key);
                        }
                        if old(self).key_seq().contains(key) {
                            let j = choose|j: int| 0 <= j < old(self).key_seq().len() && old(self).key_seq()[j] == key;
                            assert(self.key_seq()[j] == key);
                        }
                    }
                    assert forall|key: Seq<char>| self.map().contains_key(key) implies #[trigger] self.map()[key] == old(self).map().insert(kk, v)[key] by {
                        let j = choose|j: int| 0 <= j < self.key_seq().len() && self.key_seq()[j] == key;
                        assert(self.map()[self.key_seq()[j]] == self.value_at(j));
                        if j < old_entries.len() {
                            assert(old(self).key_seq()[j] == key);
                            assert(old(self).map()[old(self).key_seq()[j]] == old(self).value_at(j));
                        }
                    }
                    assert(self.map() =~= old(self).map().insert(kk, v));
                }
            },
        }
    }

    /// Takes the binding of `k` out of the map, with its value.
    pub fn remove(&mut self, k: &str) -> (r: Option<V>)
        requires
            old(self).wf(),
        ensures
            final(self).wf(),
            final(self).map() == old(self).map().remove(k@),
            match r {
                Some(v) => old(self).map().contains_key(k@) && v == old(self).map()[k@],
                None => !old(self).map().contains_key(k@),
            },
    {
        proof {
            self.lemma_keys();
        }
        let kv = chars_of(k);
        let ghost old_entries = self.entries@;
        match self.find(&kv) {
            None => {
                proof {
                    assert(!old(self).key_seq().contains(k@)) by {
                        if old(self).key_seq().contains(k@) {
                            let j = choose|j: int| 0 <= j < old(self).key_seq().len() && old(self).key_seq()[j] == k@;
                            assert(old_entries[j].0@ == k@);
                        }
                    }
                    assert(self.map() =~= old(self).map().remove(k@));
                }
                None
            },
            Some(i) => {
                proof {
                    self.lemma_lookup(i as int);
                }
                let mut entries = Vec::new();
                std::mem::swap(&mut entries, &mut self.entries);
                let (_, v) = entries.remove(i);
                proof {
                    assert(keys_of(entries@) =~= keys_of(old_entries).remove(i as int));
                }
                self.entries = entries;
                proof {
                    let ks = old(self).key_seq();
                    assert(self.key_seq() =~= ks.remove(i as int));
                    assert(distinct_keys(self.key_seq())) by {
                        assert forall|a: int, b: int| 0 <= a < b < self.key_seq().len() implies self.key_seq()[a] != self.key_seq()[b] by {
                            let a2 = if a < i { a } else { a + 1 };
                            let b2 = if b < i { b } else { b + 1 };
                            assert(self.key_seq()[a] == ks[a2]);
                            assert(self.key_seq()[b] == ks[b2]);
                        }
                    }
                    self.lemma_keys();
                    assert forall|key: Seq<char>| #[trigger] self.map().contains_key(key) <==> old(self).map().remove(k@).contains_key(key) by {
                        if self.key_seq().contains(key) {
                            let j = choose|j: int| 0 <= j < self.key_seq().len() && self.key_seq()[j] == key;
                            let j2 = if j < i { j } else { j + 1 };
                            assert(ks[j2] == key);
                            assert(ks.contains(key));
                            assert(ks[i as int] == k@);
                        }
                        if key != k@ && ks.contains(key) {
                            let j = choose|j: int| 0 <= j < ks.len() && ks[j] == key;
                            assert(j != i);
                            let j2 = if j < i { j } else { j - 1 };
                            assert(self.key_seq()[j2] == key);
                        }
                    }
                    assert forall|key: Seq<char>| self.map().contains_key(key) implies #[trigger] self.map()[key] == old(self).map().remove(k@)[key] by {
                        let j = choose|j: int| 0 <= j < self.key_seq().len() && self.key_seq()[j] == key;
                        let j2 = if j < i { j } else { j + 1 };
                        assert(self.map()[self.key_seq()[j]] == self.value_at(j));
                        assert(ks[j2] == key);
                        assert(old(self).map()[ks[j2]] == old(self).value_at(j2));
                        assert(self.value_at(j) == old(self).value_at(j2));
                        assert(key != k@) by {
                            assert(ks[i as int] == k@);
                        }
                    }
                    assert(self.map() =~= old(self).map().remove(k@));
                }
                Some(v)
            },
        }
    }

    /// All keys, in insertion order.
    pub fn keys(&self) -> (r: Vec<String>)
        requires
            self.wf(),
        ensures
            r@.len() == self.key_seq().len(),
            forall|i: int| 0 <= i < r@.len() ==> #[trigger] r@[i]@ == self.key_seq()[i],
    {
        let mut r: Vec<String> = Vec::new();
        let mut i: usize = 0;
        while i < self.entries.len()
            invariant
                i <= self.entries@.len(),
                r@.len() == i,
                forall|j: int| 0 <= j < i ==> #[trigger] r@[j]@ == keys_of(self.entries@)[j],
            decreases self.entries.len() - i,
        {
            r.push(self.entries[i].0.clone());
            i = i + 1;
        }
        r
    }
}

impl NameMap<String> {
    /// A copy of this map of strings.
    pub fn duplicate(&self) -> (r: Self)
        requires
            self.wf(),
        ensures
            r.wf(),
            r.map() == self.map(),
            r.key_seq() == self.key_seq(),
    {
        let mut entries: Vec<(String, String)> = Vec::new();
        let mut i: usize = 0;
        while i < self.entries.len()
            invariant
                i <= self.entries@.len(),
                entries@ == self.entries@.subrange(0, i as int),
            decreases self.entries.len() - i,
        {
            let k = self.entries[i].0.clone();
            let v = self.entries[i].1.clone();
            entries.push((k, v));
            i = i + 1;
            assert(entries@ =~= self.entries@.subrange(0, i as int));
        }
        assert(entries@ =~= self.entries@);
        let r = NameMap { entries };
        assert(r.key_seq() =~= self.key_seq());
        assert(r.map() =~= self.map());
        r
    }

    /// Adds every binding of `other`, which wins over a binding already
    /// here (`HashMap::extend`).
    pub fn extend_from(&mut self, other: &Self)
        requires
            old(self).wf(),
            other.wf(),
        ensures
            final(self).wf(),
            final(self).map() == old(self).map().union_prefer_right(other.map()),
    {
        proof {
            other.lemma_keys();
        }
        let mut i: usize = 0;
        while i < other.entries.len()
            invariant
                self.wf(),
                other.wf(),
                i <= other.entries@.len(),
                forall|k: Seq<char>| #[trigger] other.map().contains_key(k) <==> other.key_seq().contains(k),
                forall|j: int| 0 <= j < other.key_seq().len() ==> #[trigger] other.map()[other.key_seq()[j]] == other.value_at(j),
                distinct_keys(other.key_seq()),
                self.map() == old(self).map().union_prefer_right(
                    other.map().restrict(other.key_seq().subrange(0, i as int).to_set()),
                ),
            decreases other.entries.len() - i,
        {
            let k = other.entries[i].0.clone();
            let v = other.entries[i].1.clone();
            let ghost before = self.map();
            let ghost kk = k@;
            assert(other.key_seq()[i as int] == kk);
            assert(other.map()[kk] == v);
            self.insert(k, v);
            i = i + 1;
            proof {
                let pre = other.key_seq().subrange(0, i - 1);
                let post = other.key_seq().subrange(0, i as int);
                assert(post =~= pre.push(kk));
                assert forall|x: Seq<char>| post.contains(x) <==> (pre.contains(x) || x == kk) by {
                    if post.contains(x) {
                        let j = choose|j: int| 0 <= j < post.len() && post[j] == x;
                        if j < pre.len() {
                            assert(pre[j] == x);
                        }
                    }
                    if pre.contains(x) {
                        let j = choose|j: int| 0 <= j < pre.len() && pre[j] == x;
                        assert(post[j] == x);
                    }
                    if x == kk {
                        assert(post[i - 1] == x);
                    }
                }
                assert(post.to_set() =~= pre.to_set().insert(kk));
                assert(self.map() =~= old(self).map().union_prefer_right(
                    other.map().restrict(post.to_set()),
                ));
            }
        }
        proof {
            assert(other.key_seq().subrange(0, i as int) =~= other.key_seq());
            assert(other.map().restrict(other.key_seq().to_set()) =~= other.map());
        }
    }
}

} // verus!
