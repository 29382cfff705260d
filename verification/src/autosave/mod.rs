//! Autosave: request files naming the PVs to save, save files holding
//! their values, and the comparison of saved values with live ones.
use vstd::prelude::*;
use crate::text::{chars_of, lines, split_lines, string_of_vec, trim, trim_vec, views_of};

pub mod backup;
pub mod error;
pub mod format;
pub mod macros;
pub mod request;
pub mod save_file;
pub mod save_set;
pub mod verify;

verus! {

/// The trimmed lines of a request text that are neither empty nor comments.
pub open spec fn plain_request_names(ls: Seq<Seq<char>>) -> Seq<Seq<char>>
    decreases ls.len(),
{
    if ls.len() == 0 {
        seq![]
    } else {
        let rest = plain_request_names(ls.drop_last());
        let t = trim(ls.last());
        if t.len() > 0 && t[0] != '#' {
            rest.push(t)
        } else {
            rest
        }
    }
}

/// Parse a .req file string (one PV name per line, `#` comments).
///
/// This is a simple helper for callers that only need PV names without
/// macro expansion or `file` include support.
pub fn parse_request_file(content: &str) -> (r: Vec<String>)
    ensures
        r@.len() == plain_request_names(lines(content@)).len(),
        forall|i: int| 0 <= i < r@.len() ==> #[trigger] r@[i]@ == plain_request_names(lines(content@))[i],
{
    let text = chars_of(content);
    let ls = split_lines(&text);
    let ghost lv = views_of(ls@);
    let mut r: Vec<String> = Vec::new();
    let mut k: usize = 0;
    while k < ls.len()
        invariant
            k <= ls@.len(),
            lv == views_of(ls@),
            r@.len() == plain_request_names(lv.subrange(0, k as int)).len(),
            forall|i: int| 0 <= i < r@.len() ==> #[trigger] r@[i]@ == plain_request_names(lv.subrange(0, k as int))[i],
        decreases ls.len() - k,
    {
        let t = trim_vec(&ls[k]);
        proof {
            assert(lv.subrange(0, k + 1).drop_last() =~= lv.subrange(0, k as int));
            assert(lv.subrange(0, k + 1).last() == lv[k as int]);
        }
        if t.len() > 0 && t[0] != '#' {
            r.push(string_of_vec(&t));
        }
        k = k + 1;
    }
    assert(lv.subrange(0, k as int) =~= lv);
    r
}

} // verus!
