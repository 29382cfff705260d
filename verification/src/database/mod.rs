//! The process-variable database: record/field names, link selection and
//! the registry of link backends.
use vstd::prelude::*;
use crate::record::{last_dot, lemma_last_dot};
use crate::text::chars_of;

pub mod chain;
pub mod link_set;
pub mod multi_output;
pub mod processing;
pub mod record_db;
pub mod scan_index;

verus! {

/// The record part and field part of a PV name: split at the last `.`;
/// without a `.` the field is `VAL`.
pub open spec fn pv_name_parts(s: Seq<char>) -> (Seq<char>, Seq<char>) {
    let d = last_dot(s);
    if d >= 0 {
        (s.subrange(0, d), s.subrange(d + 1, s.len() as int))
    } else {
        (s, "VAL"@)
    }
}

/// Parse "RECORD.FIELD" into (record_name, field_name).
/// If no dot, field defaults to "VAL".
pub fn parse_pv_name(name: &str) -> (r: (&str, &str))
    ensures
        (r.0@, r.1@) == pv_name_parts(name@),
{
    let v = chars_of(name);
    let mut d = v.len();
    assert(v@.subrange(0, v@.len() as int) =~= v@);
    while d > 0 && v[d - 1] != '.'
        invariant
            d <= v@.len(),
            v@ == name@,
            last_dot(v@) == last_dot(v@.subrange(0, d as int)),
        decreases d,
    {
        assert(v@.subrange(0, d as int).drop_last() =~= v@.subrange(0, d - 1));
        d = d - 1;
    }
    proof {
        lemma_last_dot(v@);
        if d > 0 {
            assert(v@.subrange(0, d as int).last() == v@[d - 1]);
        }
    }
    if d > 0 {
        (name.substring_char(0, d - 1), name.substring_char(d, v.len()))
    } else {
        (name, "VAL")
    }
}

/// Whether bit `i` of `m` is set.
pub open spec fn bit_set(m: u16, i: nat) -> bool {
    i < 16 && m & (1u16 << i) != 0
}

/// The indices below `n` whose bit is set in `m`, in increasing order.
pub open spec fn masked_indices(m: u16, n: nat) -> Seq<usize>
    decreases n,
{
    if n == 0 {
        Seq::empty()
    } else {
        let prev = masked_indices(m, (n - 1) as nat);
        if bit_set(m, (n - 1) as nat) {
            prev.push((n - 1) as usize)
        } else {
            prev
        }
    }
}

/// The indices `0..n`.
pub open spec fn all_indices(n: nat) -> Seq<usize> {
    Seq::new(n, |i: int| i as usize)
}

/// The link indices that SELM and SELN select among `count` links:
/// SELM 1 selects link SELN (when it exists), SELM 2 the links whose bit is
/// set in SELN, and any other SELM all links.
pub open spec fn selected_links(selm: i16, seln: i16, count: nat) -> Seq<usize> {
    if selm == 1 {
        if 0 <= seln < count {
            seq![seln as usize]
        } else {
            Seq::empty()
        }
    } else if selm == 2 {
        masked_indices(seln as u16, count)
    } else {
        all_indices(count)
    }
}

/// Select which link indices are active based on SELM and SELN.
/// SELM: 0=All, 1=Specified, 2=Mask.  In mask mode SELN has 16 bits, so
/// at most 16 links can be told apart.
pub fn select_link_indices(selm: i16, seln: i16, count: usize) -> (r: Vec<usize>)
    requires
        selm == 2 ==> count <= 16,
    ensures
        r@ == selected_links(selm, seln, count as nat),
{
    if selm == 1 {
        if 0 <= seln && (seln as usize) < count {
            let mut r: Vec<usize> = Vec::new();
            r.push(seln as usize);
            assert(r@ =~= seq![seln as usize]);
            r
        } else {
            let r: Vec<usize> = Vec::new();
            assert(r@ =~= Seq::<usize>::empty());
            r
        }
    } else if selm == 2 {
        let m: u16 = seln as u16;
        let mut r: Vec<usize> = Vec::new();
        let mut i: usize = 0;
        while i < count
            invariant
                i <= count <= 16,
                m == seln as u16,
                r@ == masked_indices(m, i as nat),
            decreases count - i,
        {
            let bit: u16 = 1u16 << (i as u16);
            assert(bit == 1u16 << (i as nat));
            if m & bit != 0 {
                r.push(i);
            }
            i = i + 1;
        }
        r
    } else {
        let mut r: Vec<usize> = Vec::new();
        let mut i: usize = 0;
        while i < count
            invariant
                i <= count,
                r@ == all_indices(i as nat),
            decreases count - i,
        {
            r.push(i);
            i = i + 1;
            assert(r@ =~= all_indices(i as nat));
        }
        r
    }
}

/// Every selected index names an existing link, and no index is selected
/// twice; the indices come in increasing order.
pub proof fn selected_links_are_ordered(selm: i16, seln: i16, count: nat)
    requires
        count <= usize::MAX,
        selm == 2 ==> count <= 16,
    ensures
        forall|k: int|
            0 <= k < selected_links(selm, seln, count).len() ==> (#[trigger] selected_links(
                selm,
                seln,
                count,
            )[k]) < count,
        forall|j: int, k: int|
            0 <= j < k < selected_links(selm, seln, count).len() ==> selected_links(
                selm,
                seln,
                count,
            )[j] < selected_links(selm, seln, count)[k],
{
    if selm == 2 {
        masked_indices_ordered(seln as u16, count);
    }
}

proof fn masked_indices_ordered(m: u16, n: nat)
    requires
        n <= 16,
    ensures
        forall|k: int| 0 <= k < masked_indices(m, n).len() ==> (#[trigger] masked_indices(m, n)[k]) < n,
        forall|j: int, k: int|
            0 <= j < k < masked_indices(m, n).len() ==> masked_indices(m, n)[j] < masked_indices(m, n)[k],
    decreases n,
{
    if n > 0 {
        let prev = masked_indices(m, (n - 1) as nat);
        masked_indices_ordered(m, (n - 1) as nat);
        if bit_set(m, (n - 1) as nat) {
            let cur = prev.push((n - 1) as usize);
            assert forall|j: int, k: int| 0 <= j < k < cur.len() implies cur[j] < cur[k] by {
                if k == prev.len() {
                    assert(cur[j] == prev[j]);
                }
            }
        }
    }
}

} // verus!
