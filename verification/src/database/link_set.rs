//! Pluggable backends for `pva://` / `ca://` link resolution, keyed by URL
//! scheme.
use vstd::prelude::*;
use crate::name_map::NameMap;
use crate::text::{chars_of, prefix_at_str, starts_with, string_of_vec, sub_vec};

verus! {

/// Pluggable backend for one URL scheme's link operations.
///
/// All methods take `&self`; an implementation keeps any cached state
/// behind interior mutability. `None` / `false` is the "unavailable"
/// sentinel.
pub trait LinkSet {
    /// The values this backend reads and writes.
    type Value;

    /// True iff a fresh value is available for `name` without blocking.
    fn is_connected(&self, name: &str) -> bool;

    /// Read the current value of `name`; `None` when the upstream is not
    /// connected or nothing is cached for this name.
    fn get_value(&self, name: &str) -> Option<Self::Value>;

    /// Write `value` to `name`. The default rejects all writes.
    fn put_value(&self, name: &str, value: Self::Value) -> (r: Result<(), String>)
        default_ensures
            r matches Err(e) && e@ == "link set is read-only"@,
    {
        Err("link set is read-only".to_owned())
    }

    /// Most recent alarm message from the upstream PV, when available. The
    /// default has none.
    fn alarm_message(&self, name: &str) -> (r: Option<String>)
        default_ensures
            r is None,
    {
        None
    }

    /// `(seconds_past_epoch, nanoseconds)` of the upstream PV, when available.
    /// The default has none.
    fn time_stamp(&self, name: &str) -> (r: Option<(i64, i32)>)
        default_ensures
            r is None,
    {
        None
    }

    /// Every PV name this backend has opened. The default has opened none.
    fn link_names(&self) -> (r: Vec<String>)
        default_ensures
            r@.len() == 0,
    {
        Vec::new()
    }
}

/// Per-scheme registry of link backends.
pub struct LinkSetRegistry<L> {
    inner: NameMap<L>,
}

impl<L> LinkSetRegistry<L> {
    pub closed spec fn wf(&self) -> bool {
        self.inner.wf()
    }

    /// The backend registered under each scheme.
    pub closed spec fn view(&self) -> Map<Seq<char>, L> {
        self.inner.map()
    }

    /// The registered schemes in order of first registration.
    pub closed spec fn scheme_order(&self) -> Seq<Seq<char>> {
        self.inner.key_seq()
    }

    /// A scheme is registered exactly when it is in the scheme order, which
    /// holds no scheme twice.
    pub proof fn lemma_scheme_order(&self)
        requires
            self.wf(),
        ensures
            forall|k: Seq<char>| #[trigger] self.view().contains_key(k) <==> self.scheme_order().contains(k),
            self.scheme_order().no_duplicates(),
    {
        self.inner.lemma_keys();
        let o = self.scheme_order();
        assert forall|i: int, j: int| 0 <= i < o.len() && 0 <= j < o.len() && i != j implies o[i] != o[j] by {
            if i < j {
            } else {
            }
        }
    }

    pub fn new() -> (r: Self)
        ensures
            r.wf(),
            r.view() == Map::<Seq<char>, L>::empty(),
    {
        LinkSetRegistry { inner: NameMap::new() }
    }

    /// Register `lset` under `scheme`. Subsequent calls for the same
    /// scheme replace the previous binding.
    pub fn register(&mut self, scheme: &str, lset: L)
        requires
            old(self).wf(),
        ensures
            final(self).wf(),
            final(self).view() == old(self).view().insert(scheme@, lset),
    {
        self.inner.insert(scheme.to_owned(), lset);
    }

    /// Look up the lset for `scheme`. Returns `None` when nothing is
    /// registered under that scheme.
    pub fn get(&self, scheme: &str) -> (r: Option<&L>)
        requires
            self.wf(),
        ensures
            match r {
                Some(l) => self.view().contains_key(scheme@) && *l == self.view()[scheme@],
                None => !self.view().contains_key(scheme@),
            },
    {
        self.inner.get(scheme)
    }

    /// Names of every registered scheme, each once, in order of first
    /// registration.
    pub fn schemes(&self) -> (r: Vec<String>)
        requires
            self.wf(),
        ensures
            r@.len() == self.view().len(),
            forall|i: int| 0 <= i < r@.len() ==> self.view().contains_key(#[trigger] r@[i]@),
            forall|k: Seq<char>| #[trigger] self.view().contains_key(k) ==> exists|i: int|
                0 <= i < r@.len() && r@[i]@ == k,
            forall|i: int, j: int| 0 <= i < j < r@.len() ==> r@[i]@ != r@[j]@,
            r@.len() == self.scheme_order().len(),
            forall|i: int| 0 <= i < r@.len() ==> #[trigger] r@[i]@ == self.scheme_order()[i],
    {
        proof {
            self.inner.lemma_keys();
        }
        let r = self.inner.keys();
        let n = self.inner.len();
        proof {
            assert forall|k: Seq<char>| #[trigger] self.view().contains_key(k) implies exists|i: int|
                0 <= i < r@.len() && r@[i]@ == k by {
                let i = choose|i: int| 0 <= i < self.inner.key_seq().len() && self.inner.key_seq()[i] == k;
                assert(r@[i]@ == k);
            }
            assert forall|i: int| 0 <= i < r@.len() implies self.view().contains_key(#[trigger] r@[i]@) by {
                assert(self.inner.key_seq()[i] == r@[i]@);
                assert(self.inner.key_seq().contains(r@[i]@));
            }
            assert forall|i: int, j: int| 0 <= i < j < r@.len() implies r@[i]@ != r@[j]@ by {
                assert(self.inner.key_seq()[i] == r@[i]@);
                assert(self.inner.key_seq()[j] == r@[j]@);
            }
        }
        r
    }

    /// Number of registered schemes.
    pub fn len(&self) -> (r: usize)
        requires
            self.wf(),
        ensures
            r == self.view().len(),
            r == self.scheme_order().len(),
    {
        self.inner.len()
    }

    pub fn is_empty(&self) -> (r: bool)
        requires
            self.wf(),
        ensures
            r == (self.view().len() == 0),
    {
        self.inner.is_empty()
    }
}

/// The scheme and the name after it of a `pva://` or `ca://` PV name.
pub open spec fn scheme_split(name: Seq<char>) -> Option<(Seq<char>, Seq<char>)> {
    if starts_with(name, "pva://"@) {
        Some(("pva"@, name.subrange(6, name.len() as int)))
    } else if starts_with(name, "ca://"@) {
        Some(("ca"@, name.subrange(5, name.len() as int)))
    } else {
        None
    }
}

/// Splits a scheme-prefixed PV name into its scheme and the name that the
/// scheme's backend knows; `None` for a bare name.
pub fn split_link_scheme(name: &str) -> (r: Option<(String, String)>)
    ensures
        match r {
            Some((s, b)) => scheme_split(name@) == Some((s@, b@)),
            None => scheme_split(name@) is None,
        },
{
    let v = chars_of(name);
    if prefix_at_str(&v, 0, "pva://") {
        proof {
            reveal_strlit("pva://");
        }
        let body = sub_vec(&v, 6, v.len());
        Some(("pva".to_string(), string_of_vec(&body)))
    } else if prefix_at_str(&v, 0, "ca://") {
        proof {
            reveal_strlit("ca://");
        }
        let body = sub_vec(&v, 5, v.len());
        Some(("ca".to_string(), string_of_vec(&body)))
    } else {
        None
    }
}

/// The lookups that resolving the external PV `name` makes, in order, over
/// the schemes registered in `order`: a `pva://` or `ca://` name asks the
/// backend of its scheme, when registered, for the rest of the name; a bare
/// name asks every registered backend for the whole name.
pub open spec fn lookup_plan(order: Seq<Seq<char>>, name: Seq<char>) -> Seq<(Seq<char>, Seq<char>)> {
    match scheme_split(name) {
        Some(p) => if order.contains(p.0) {
            seq![p]
        } else {
            seq![]
        },
        None => Seq::new(order.len(), |i: int| (order[i], name)),
    }
}

pub open spec fn lookups_view(v: Seq<(String, String)>) -> Seq<(Seq<char>, Seq<char>)> {
    Seq::new(v.len(), |i: int| (v[i].0@, v[i].1@))
}

/// The `(scheme, name)` lookups that resolving the external PV `name`
/// makes, in the order they are tried.
pub fn external_lookups<L>(registry: &LinkSetRegistry<L>, name: &str) -> (r: Vec<(String, String)>)
    requires
        registry.wf(),
    ensures
        lookups_view(r@) == lookup_plan(registry.scheme_order(), name@),
{
    proof {
        registry.lemma_scheme_order();
    }
    match split_link_scheme(name) {
        Some((scheme, body)) => {
            let mut r: Vec<(String, String)> = Vec::new();
            if registry.get(scheme.as_str()).is_some() {
                r.push((scheme, body));
            }
            assert(lookups_view(r@) =~= lookup_plan(registry.scheme_order(), name@));
            r
        },
        None => {
            let schemes = registry.schemes();
            let mut r: Vec<(String, String)> = Vec::new();
            let mut i: usize = 0;
            while i < schemes.len()
                invariant
                    i <= schemes@.len(),
                    schemes@.len() == registry.scheme_order().len(),
                    forall|k: int| 0 <= k < schemes@.len() ==> #[trigger] schemes@[k]@ == registry.scheme_order()[k],
                    lookups_view(r@) =~= Seq::new(i as nat, |k: int| (registry.scheme_order()[k], name@)),
                decreases schemes.len() - i,
            {
                let ghost before = r@;
                let entry = (schemes[i].clone(), name.to_string());
                assert(entry.0@ == registry.scheme_order()[i as int]);
                r.push(entry);
                assert(lookups_view(r@) =~= lookups_view(before).push((registry.scheme_order()[i as int], name@)));
                i = i + 1;
            }
            r
        },
    }
}

/// The first answer that holds a value, in order.
pub open spec fn first_some<V>(answers: Seq<Option<V>>) -> Option<V>
    decreases answers.len(),
{
    if answers.len() == 0 {
        None
    } else if answers[0] is Some {
        answers[0]
    } else {
        first_some(answers.drop_first())
    }
}

/// Combines the answers of the backends asked in turn: the first backend
/// with a value wins.
pub fn first_answer<V>(answers: Vec<Option<V>>) -> (r: Option<V>)
    ensures
        r == first_some(answers@),
{
    let mut a = answers;
    while a.len() > 0
        invariant
            first_some(answers@) == first_some(a@),
        decreases a.len(),
    {
        let ghost before = a@;
        let x = a.remove(0);
        assert(a@ =~= before.drop_first());
        if x.is_some() {
            return x;
        }
    }
    None
}

/// Reads an external PV through the registered backends: the lookups of
/// `lookup_plan` are made in order, each asking its backend, until one
/// has a value; the answer is the first value given (`first_answer`).
/// Nothing is read where the plan makes no lookup. (The backends are the
/// users' own, so what each one answers is theirs to say.)
pub fn resolve_external_value<L: LinkSet>(registry: &LinkSetRegistry<L>, name: &str) -> (r: Option<L::Value>)
    requires
        registry.wf(),
    ensures
        lookup_plan(registry.scheme_order(), name@).len() == 0 ==> r is None,
        registry.view().len() == 0 ==> r is None,
        scheme_split(name@) matches Some(p) ==> (!registry.view().contains_key(p.0) ==> r is None),
        exists|answers: Seq<Option<L::Value>>| #![trigger first_some(answers)]
            answers.len() <= lookup_plan(registry.scheme_order(), name@).len()
            && r == first_some(answers)
            && (answers.len() < lookup_plan(registry.scheme_order(), name@).len() ==> answers.last() is Some),
{
    proof {
        registry.lemma_scheme_order();
    }
    if registry.len() == 0 {
        proof {
            assert(lookup_plan(registry.scheme_order(), name@).len() == 0);
            assert(first_some(Seq::<Option<L::Value>>::empty()) is None);
        }
        return None;
    }
    let plan = external_lookups(registry, name);
    let mut answers: Vec<Option<L::Value>> = Vec::new();
    let mut i: usize = 0;
    let mut done = false;
    while i < plan.len()
        invariant
            registry.wf(),
            i <= plan@.len(),
            lookups_view(plan@) == lookup_plan(registry.scheme_order(), name@),
            answers@.len() <= i,
            done ==> answers@.len() > 0 && answers@.last() is Some && answers@.len() < plan@.len() || done && i == plan@.len() && answers@.len() > 0 && answers@.last() is Some,
            !done ==> answers@.len() == i,
            plan@.len() == 0 ==> answers@.len() == 0,
        decreases plan.len() - i + (if done { 0int } else { 1int }),
    {
        if done {
            i = plan.len();
        } else {
            let (scheme, key) = &plan[i];
            let answer = match registry.get(scheme.as_str()) {
                Some(lset) => lset.get_value(key.as_str()),
                None => None,
            };
            let has = answer.is_some();
            answers.push(answer);
            i = i + 1;
            if has {
                done = true;
            }
        }
    }
    let ghost a = answers@;
    let r = first_answer(answers);
    proof {
        if a.len() < plan@.len() {
            assert(done);
        }
        if plan@.len() == 0 {
            assert(a =~= Seq::<Option<L::Value>>::empty());
        }
    }
    r
}

/// After registering a backend under a scheme, looking the scheme up finds
/// that backend, and every other scheme keeps its binding.
pub proof fn register_then_lookup<L>(before: Map<Seq<char>, L>, scheme: Seq<char>, lset: L, other: Seq<char>)
    requires
        other != scheme,
    ensures
        before.insert(scheme, lset).contains_key(scheme),
        before.insert(scheme, lset)[scheme] == lset,
        before.insert(scheme, lset).contains_key(other) == before.contains_key(other),
        before.contains_key(other) ==> before.insert(scheme, lset)[other] == before[other],
{
}

} // verus!
