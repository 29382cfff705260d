//! The records of the database by name, each with its common fields and
//! its record-type part, and the channel-process (`CP`) links between them.
use vstd::prelude::*;
use crate::name_map::NameMap;
use crate::record::CommonFields;
use crate::text::{str_eq, string_views};

verus! {

/// The record-type part of a record. Record types implement it; the
/// processing chain asks a record through it whether it writes its output
/// and fires its forward link.
pub trait Record {
    /// The record type name, such as `ai` or `calcout`.
    fn record_type(&self) -> &str;

    /// Whether the record hands its output to device support.
    fn can_device_write(&self) -> bool;

    /// Whether the record writes its output in this cycle.
    fn should_output(&self) -> bool;

    /// Whether the record fires its forward link in this cycle.
    fn should_fire_forward_link(&self) -> bool;

    /// Whether processing defines the record's value (clears `UDF`).
    fn clears_udf(&self) -> bool;
}

/// One record: its common fields and its record-type part.
pub struct RecordSlot<R> {
    pub common: CommonFields,
    pub record: R,
}

/// The records by name and the `CP` links: for each source record, the
/// records to process when it changes, in order of registration.
pub struct RecordDb<R> {
    records: NameMap<RecordSlot<R>>,
    cp: NameMap<Vec<String>>,
}

pub open spec fn common_of<R>(s: RecordSlot<R>) -> CommonFields {
    s.common
}

fn copy_strings(v: &Vec<String>) -> (r: Vec<String>)
    ensures
        string_views(r@) == string_views(v@),
{
    let mut r: Vec<String> = Vec::new();
    let mut i: usize = 0;
    while i < v.len()
        invariant
            i <= v@.len(),
            string_views(r@) =~= string_views(v@).subrange(0, i as int),
        decreases v.len() - i,
    {
        let ghost before = r@;
        let x = v[i].clone();
        r.push(x);
        assert(string_views(r@) =~= string_views(before).push(v@[i as int]@));
        i = i + 1;
    }
    assert(string_views(v@).subrange(0, i as int) =~= string_views(v@));
    r
}

impl<R> RecordDb<R> {
    pub closed spec fn wf(&self) -> bool {
        self.records.wf() && self.cp.wf()
    }

    /// The common fields of each record.
    pub closed spec fn commons(&self) -> Map<Seq<char>, CommonFields> {
        self.records.map().map_values(|s: RecordSlot<R>| s.common)
    }

    /// The records to process when each source record changes.
    pub closed spec fn cp_map(&self) -> Map<Seq<char>, Seq<Seq<char>>> {
        self.cp.map().map_values(|v: Vec<String>| string_views(v@))
    }

    /// The `CP` targets of `name` (none when it has no entry).
    pub open spec fn cp_of(&self, name: Seq<char>) -> Seq<Seq<char>> {
        if self.cp_map().contains_key(name) {
            self.cp_map()[name]
        } else {
            seq![]
        }
    }

    pub fn new() -> (r: Self)
        ensures
            r.wf(),
            r.commons() == Map::<Seq<char>, CommonFields>::empty(),
            r.cp_map() == Map::<Seq<char>, Seq<Seq<char>>>::empty(),
    {
        let r = RecordDb { records: NameMap::new(), cp: NameMap::new() };
        assert(r.commons() =~= Map::<Seq<char>, CommonFields>::empty());
        assert(r.cp_map() =~= Map::<Seq<char>, Seq<Seq<char>>>::empty());
        r
    }

    /// Adds (or replaces) the record `name`.
    pub fn add_record(&mut self, name: &str, slot: RecordSlot<R>)
        requires
            old(self).wf(),
        ensures
            final(self).wf(),
            final(self).commons() == old(self).commons().insert(name@, slot.common),
            final(self).cp_map() == old(self).cp_map(),
    {
        let ghost c = slot.common;
        self.records.insert(name.to_string(), slot);
        assert(self.commons() =~= old(self).commons().insert(name@, c));
    }

    /// The record `name`.
    pub fn record(&self, name: &str) -> (r: Option<&RecordSlot<R>>)
        requires
            self.wf(),
        ensures
            match r {
                Some(s) => self.commons().contains_key(name@) && s.common == self.commons()[name@],
                None => !self.commons().contains_key(name@),
            },
    {
        self.records.get(name)
    }

    /// Takes the record `name` out of the database (to be processed and
    /// added back).
    pub fn take_record(&mut self, name: &str) -> (r: Option<RecordSlot<R>>)
        requires
            old(self).wf(),
        ensures
            final(self).wf(),
            final(self).commons() == old(self).commons().remove(name@),
            final(self).cp_map() == old(self).cp_map(),
            match r {
                Some(s) => old(self).commons().contains_key(name@) && s.common == old(self).commons()[name@],
                None => !old(self).commons().contains_key(name@),
            },
    {
        let r = self.records.remove(name);
        assert(self.commons() =~= old(self).commons().remove(name@));
        r
    }

    /// Registers that a change of `source` processes `target`; a target
    /// already registered for the source is not added again.
    pub fn register_cp(&mut self, source: &str, target: &str)
        requires
            old(self).wf(),
        ensures
            final(self).wf(),
            final(self).commons() == old(self).commons(),
            old(self).cp_of(source@).contains(target@) ==> final(self).cp_map() == old(self).cp_map(),
            !old(self).cp_of(source@).contains(target@) ==> final(self).cp_map() == old(self).cp_map().insert(source@, old(self).cp_of(source@).push(target@)),
    {
        let mut list: Vec<String> = match self.cp.get(source) {
            Some(v) => copy_strings(v),
            None => Vec::new(),
        };
        assert(string_views(list@) == old(self).cp_of(source@));
        let mut found = false;
        let mut i: usize = 0;
        while i < list.len()
            invariant
                i <= list@.len(),
                found ==> string_views(list@).contains(target@),
                !found ==> forall|j: int| 0 <= j < i ==> string_views(list@)[j] != target@,
            decreases list.len() - i,
        {
            if str_eq(list[i].as_str(), target) {
                assert(string_views(list@)[i as int] == target@);
                found = true;
            }
            i = i + 1;
        }
        if found {
            return;
        }
        list.push(target.to_string());
        let ghost lv = string_views(list@);
        assert(lv =~= old(self).cp_of(source@).push(target@));
        self.cp.insert(source.to_string(), list);
        assert(self.cp_map() =~= old(self).cp_map().insert(source@, lv));
    }

    /// The records to process when `name` changes, in order.
    pub fn cp_targets(&self, name: &str) -> (r: Vec<String>)
        requires
            self.wf(),
        ensures
            string_views(r@) == self.cp_of(name@),
    {
        match self.cp.get(name) {
            Some(v) => copy_strings(v),
            None => {
                let r: Vec<String> = Vec::new();
                assert(string_views(r@) =~= Seq::<Seq<char>>::empty());
                r
            },
        }
    }
}

} // verus!
