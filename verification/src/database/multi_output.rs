//! The dispatches of the multi-output record types: a fanout record
//! processes the records its selected links name, a dfanout record writes
//! its value through its selected links, a seq record reads the value of
//! each selected `DOL` link and writes it through its `LNK` (an sseq record
//! writes its `STR`/`DO` value where it has no `DOL`), and a record with
//! generic output links writes each value through its link.
use vstd::prelude::*;
use crate::database::chain::{dispatch_model, Dispatch, DispatchModel};
use crate::database::{select_link_indices, selected_links};
use crate::record::{link_meaning, parse_link_v2, LinkModel, ParsedLink};
use crate::text::{chars_of, string_views};

verus! {

/// The dispatch of one link text: a database link gives the processing
/// of its record (`write` false) or a write through it (`write` true);
/// any other link gives none.
pub open spec fn link_dispatch(link: Seq<char>, write: bool) -> Option<DispatchModel> {
    match link_meaning(link) {
        LinkModel::Db(r, f, p) => if write {
            Some(DispatchModel::Write((r, f, p)))
        } else {
            Some(DispatchModel::Process(r))
        },
        _ => None,
    }
}

/// The dispatches of the links at the selected indices, in selection
/// order.
pub open spec fn links_plan(links: Seq<Seq<char>>, sel: Seq<usize>, write: bool) -> Seq<DispatchModel>
    decreases sel.len(),
{
    if sel.len() == 0 {
        seq![]
    } else {
        let prev = links_plan(links, sel.drop_last(), write);
        let i = sel.last() as int;
        if i < links.len() {
            match link_dispatch(links[i], write) {
                Some(d) => prev.push(d),
                None => prev,
            }
        } else {
            prev
        }
    }
}

fn plan(links: &Vec<String>, sel: &Vec<usize>, write: bool) -> (r: Vec<Dispatch>)
    ensures
        dispatch_model(r@) == links_plan(string_views(links@), sel@, write),
{
    let mut r: Vec<Dispatch> = Vec::new();
    let mut j: usize = 0;
    while j < sel.len()
        invariant
            j <= sel@.len(),
            dispatch_model(r@) == links_plan(string_views(links@), sel@.subrange(0, j as int), write),
        decreases sel.len() - j,
    {
        let ghost pre = sel@.subrange(0, j as int);
        assert(sel@.subrange(0, j + 1).drop_last() =~= pre);
        let i = sel[j];
        if i < links.len() {
            let ghost before = r@;
            match parse_link_v2(links[i].as_str()) {
                ParsedLink::Db(d) => {
                    let item = if write { Dispatch::Write(d) } else { Dispatch::Process(d.record) };
                    let ghost m = item.model();
                    r.push(item);
                    assert(dispatch_model(r@) =~= dispatch_model(before).push(m));
                },
                _ => {},
            }
        }
        j = j + 1;
    }
    assert(sel@.subrange(0, j as int) =~= sel@);
    r
}

/// The records a fanout record processes: those its links selected by
/// `SELM`/`SELN` name through database links, in order.
pub fn fanout_dispatch(selm: i16, seln: i16, links: &Vec<String>) -> (r: Vec<Dispatch>)
    requires
        selm == 2 ==> links.len() <= 16,
    ensures
        dispatch_model(r@) == links_plan(string_views(links@), selected_links(selm, seln, links.len() as nat), false),
{
    let sel = select_link_indices(selm, seln, links.len());
    plan(links, &sel, false)
}

/// The writes of a dfanout record: its value through each of its links
/// selected by `SELM`/`SELN` that is a database link, in order; none when
/// it has no value.
pub fn dfanout_dispatch(selm: i16, seln: i16, links: &Vec<String>, has_value: bool) -> (r: Vec<Dispatch>)
    requires
        selm == 2 ==> links.len() <= 16,
    ensures
        has_value ==> dispatch_model(r@) == links_plan(string_views(links@), selected_links(selm, seln, links.len() as nat), true),
        !has_value ==> r@.len() == 0,
{
    if has_value {
        let sel = select_link_indices(selm, seln, links.len());
        plan(links, &sel, true)
    } else {
        Vec::new()
    }
}

/// The writes of generic output links (`OUTA`.. to `A`..): each link that
/// is a database link and has a value to write, in order.
pub fn output_links_dispatch(links: &Vec<String>, has_value: &Vec<bool>) -> (r: Vec<Dispatch>)
    requires
        links.len() == has_value.len(),
    ensures
        dispatch_model(r@) == links_plan(string_views(links@), valued_indices(has_value@), true),
{
    let mut sel: Vec<usize> = Vec::new();
    let mut i: usize = 0;
    while i < has_value.len()
        invariant
            i <= has_value@.len(),
            sel@ == valued_indices(has_value@.subrange(0, i as int)),
        decreases has_value.len() - i,
    {
        assert(has_value@.subrange(0, i + 1).drop_last() =~= has_value@.subrange(0, i as int));
        if has_value[i] {
            sel.push(i);
        }
        i = i + 1;
    }
    assert(has_value@.subrange(0, i as int) =~= has_value@);
    plan(links, &sel, true)
}

/// The dispatch of one `DOL`/`LNK` pair: through a database `LNK`, the
/// value read through a given `DOL`, or else (`constant_ok`) the record's
/// own value; nothing otherwise.
pub open spec fn pair_dispatch(dol: Seq<char>, lnk: Seq<char>, constant_ok: bool) -> Option<DispatchModel> {
    match link_meaning(lnk) {
        LinkModel::Db(r, f, p) => if dol.len() > 0 {
            Some(DispatchModel::ReadWrite(dol, (r, f, p)))
        } else if constant_ok {
            Some(DispatchModel::Write((r, f, p)))
        } else {
            None
        },
        _ => None,
    }
}

/// The dispatches of the pairs at the selected indices, in selection order.
pub open spec fn pairs_plan(dols: Seq<Seq<char>>, lnks: Seq<Seq<char>>, sel: Seq<usize>, constant_ok: bool) -> Seq<DispatchModel>
    decreases sel.len(),
{
    if sel.len() == 0 {
        seq![]
    } else {
        let prev = pairs_plan(dols, lnks, sel.drop_last(), constant_ok);
        let i = sel.last() as int;
        if i < lnks.len() && i < dols.len() {
            match pair_dispatch(dols[i], lnks[i], constant_ok) {
                Some(d) => prev.push(d),
                None => prev,
            }
        } else {
            prev
        }
    }
}

fn pairs(dols: &Vec<String>, lnks: &Vec<String>, sel: &Vec<usize>, constant_ok: bool) -> (r: Vec<Dispatch>)
    ensures
        dispatch_model(r@) == pairs_plan(string_views(dols@), string_views(lnks@), sel@, constant_ok),
{
    let mut r: Vec<Dispatch> = Vec::new();
    let mut j: usize = 0;
    while j < sel.len()
        invariant
            j <= sel@.len(),
            dispatch_model(r@) == pairs_plan(string_views(dols@), string_views(lnks@), sel@.subrange(0, j as int), constant_ok),
        decreases sel.len() - j,
    {
        let ghost pre = sel@.subrange(0, j as int);
        assert(sel@.subrange(0, j + 1).drop_last() =~= pre);
        let i = sel[j];
        if i < lnks.len() && i < dols.len() {
            let ghost before = r@;
            match parse_link_v2(lnks[i].as_str()) {
                ParsedLink::Db(d) => {
                    if chars_of(dols[i].as_str()).len() > 0 {
                        let item = Dispatch::ReadWrite(dols[i].clone(), d);
                        let ghost m = item.model();
                        r.push(item);
                        assert(dispatch_model(r@) =~= dispatch_model(before).push(m));
                    } else if constant_ok {
                        let item = Dispatch::Write(d);
                        let ghost m = item.model();
                        r.push(item);
                        assert(dispatch_model(r@) =~= dispatch_model(before).push(m));
                    }
                },
                _ => {},
            }
        }
        j = j + 1;
    }
    assert(sel@.subrange(0, j as int) =~= sel@);
    r
}

/// The dispatches of a seq record: for each `DOL`/`LNK` pair selected by
/// `SELM`/`SELN` with a `DOL` and a database `LNK`, read the `DOL` value
/// and write it through the `LNK`, in order.
pub fn seq_dispatch(selm: i16, seln: i16, dols: &Vec<String>, lnks: &Vec<String>) -> (r: Vec<Dispatch>)
    requires
        selm == 2 ==> lnks.len() <= 16,
    ensures
        dispatch_model(r@) == pairs_plan(string_views(dols@), string_views(lnks@), selected_links(selm, seln, lnks.len() as nat), false),
{
    let sel = select_link_indices(selm, seln, lnks.len());
    pairs(dols, lnks, &sel, false)
}

/// The dispatches of an sseq record: as for seq, but a selected pair
/// without a `DOL` writes the record's `STR` (or `DO`) value through its
/// database `LNK`.
pub fn sseq_dispatch(selm: i16, seln: i16, dols: &Vec<String>, lnks: &Vec<String>) -> (r: Vec<Dispatch>)
    requires
        selm == 2 ==> lnks.len() <= 16,
    ensures
        dispatch_model(r@) == pairs_plan(string_views(dols@), string_views(lnks@), selected_links(selm, seln, lnks.len() as nat), true),
{
    let sel = select_link_indices(selm, seln, lnks.len());
    pairs(dols, lnks, &sel, true)
}

/// The indices whose flag is set, in increasing order.
pub open spec fn valued_indices(flags: Seq<bool>) -> Seq<usize>
    decreases flags.len(),
{
    if flags.len() == 0 {
        seq![]
    } else {
        let prev = valued_indices(flags.drop_last());
        if flags.last() {
            prev.push((flags.len() - 1) as usize)
        } else {
            prev
        }
    }
}

} // verus!
