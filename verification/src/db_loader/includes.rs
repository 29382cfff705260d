//! `include` and `substitute` directives of `.db` files, the checks made
//! before a file is included, and DTYP overrides.  Reading the files is the
//! caller's part; what to do with each line is decided here.
use vstd::prelude::*;
use crate::autosave::macros::{split_from, str_map};
use crate::db_loader::{pairs_view, records_view, subst_into, substituted, DbRecordDef};
use crate::db_loader::grammar::{fail, RecordModel};
use crate::error::CaError;
use crate::name_map::NameMap;
use crate::text::{
    char_is_white, chars_of, decimal, find_char, find_from, is_white, lemma_find_from,
    prefix_at_str, push_all, push_decimal, push_str, starts_with, string_of_vec, string_views, sub_vec, trim,
    trim_bounds, trim_vec,
};
use crate::db_loader::reader::parse_error;

verus! {

/// Configuration for file-based DB loading with include support.
pub struct DbLoadConfig {
    pub include_paths: Vec<String>,
    pub max_include_depth: usize,
}

impl Default for DbLoadConfig {
    fn default() -> (r: Self)
        ensures
            r.include_paths@.len() == 0,
            r.max_include_depth == 32,
    {
        DbLoadConfig { include_paths: Vec::new(), max_include_depth: 32 }
    }
}

/// The quoted argument of a directive line `KW "arg"`: the trimmed line
/// must start with the keyword, followed by whitespace or a quote, and the
/// argument is the text between the next two double quotes.  Comment lines
/// are no directives.
pub open spec fn directive_arg(line: Seq<char>, kw: Seq<char>) -> Option<Seq<char>> {
    let t = trim(line);
    if t.len() > 0 && t[0] == '#' {
        None
    } else if !starts_with(t, kw) {
        None
    } else {
        let rest = t.subrange(kw.len() as int, t.len() as int);
        if rest.len() == 0 || (!is_white(rest[0]) && rest[0] != '"') {
            None
        } else {
            let q = find_from(rest, 0, '"');
            if q >= rest.len() {
                None
            } else {
                let after = rest.subrange(q + 1, rest.len() as int);
                let e = find_from(after, 0, '"');
                if e >= after.len() {
                    None
                } else {
                    Some(after.subrange(0, e))
                }
            }
        }
    }
}

fn directive_x(line: &str, kw: &str) -> (r: Option<String>)
    ensures
        match r {
            Some(a) => directive_arg(line@, kw@) == Some(a@),
            None => directive_arg(line@, kw@) is None,
        },
{
    let t = trim_vec(&chars_of(line));
    if t.len() > 0 && t[0] == '#' {
        return None;
    }
    if !prefix_at_str(&t, 0, kw) {
        return None;
    }
    let k = chars_of(kw);
    let rest = sub_vec(&t, k.len(), t.len());
    if rest.len() == 0 || (!char_is_white(rest[0]) && rest[0] != '"') {
        return None;
    }
    let q = find_char(&rest, 0, '"');
    proof {
        lemma_find_from(rest@, 0, '"');
    }
    if q >= rest.len() {
        return None;
    }
    let after = sub_vec(&rest, q + 1, rest.len());
    let e = find_char(&after, 0, '"');
    proof {
        lemma_find_from(after@, 0, '"');
    }
    if e >= after.len() {
        return None;
    }
    Some(string_of_vec(&sub_vec(&after, 0, e)))
}

/// Parse an include directive line. Returns the filename if the line is an include directive.
pub fn parse_include_directive(line: &str) -> (r: Option<String>)
    ensures
        match r {
            Some(a) => directive_arg(line@, "include"@) == Some(a@),
            None => directive_arg(line@, "include"@) is None,
        },
{
    directive_x(line, "include")
}

/// Parse a `substitute "NAME=VALUE,..."` directive line; returns the
/// quoted content.
pub fn parse_substitute_directive(line: &str) -> (r: Option<String>)
    ensures
        match r {
            Some(a) => directive_arg(line@, "substitute"@) == Some(a@),
            None => directive_arg(line@, "substitute"@) is None,
        },
{
    directive_x(line, "substitute")
}

/// One `NAME=VALUE` item of a `substitute` directive applied to the macros
/// in force: the value is expanded with them first.  An item without `=`
/// changes nothing.
pub open spec fn subst_pair(m: Map<Seq<char>, Seq<char>>, item: Seq<char>) -> Map<Seq<char>, Seq<char>> {
    let eq = find_from(item, 0, '=');
    if eq < item.len() {
        m.insert(trim(item.subrange(0, eq)), substituted(trim(item.subrange(eq + 1, item.len() as int)), m))
    } else {
        m
    }
}

/// The items of a `substitute` directive applied in order.
pub open spec fn subst_items(m: Map<Seq<char>, Seq<char>>, items: Seq<Seq<char>>) -> Map<Seq<char>, Seq<char>>
    decreases items.len(),
{
    if items.len() == 0 {
        m
    } else {
        subst_pair(subst_items(m, items.drop_last()), items.last())
    }
}

/// Apply the `NAME=VALUE,...` items of a `substitute` directive to the
/// macros in force.
pub fn apply_substitute(local: &mut NameMap<String>, subst: &str)
    requires
        old(local).wf(),
    ensures
        final(local).wf(),
        str_map(final(local).map()) == subst_items(str_map(old(local).map()), split_from(subst@, 0, ',')),
{
    let v = chars_of(subst);
    let mut start: usize = 0;
    let ghost mut done: Seq<Seq<char>> = seq![];
    let ghost m0 = str_map(local.map());
    loop
        invariant
            start <= v.len(),
            local.wf(),
            v@ == subst@,
            m0 == str_map(old(local).map()),
            split_from(v@, 0, ',') == done + split_from(v@, start as int, ','),
            str_map(local.map()) == subst_items(m0, done),
        decreases v.len() - start,
    {
        let e = find_char(&v, start, ',');
        proof {
            lemma_find_from(v@, start as int, ',');
        }
        let item = sub_vec(&v, start, e);
        let eq = find_char(&item, 0, '=');
        proof {
            lemma_find_from(item@, 0, '=');
        }
        if eq < item.len() {
            let key = trim_vec(&sub_vec(&item, 0, eq));
            let raw = trim_vec(&sub_vec(&item, eq + 1, item.len()));
            let mut val: Vec<char> = Vec::new();
            subst_into(&mut val, &raw, local);
            let ghost before = local.map();
            local.insert(string_of_vec(&key), string_of_vec(&val));
            proof {
                assert(str_map(local.map()) =~= str_map(before).insert(key@, val@));
            }
        }
        proof {
            assert(subst_items(m0, done.push(item@)) == subst_pair(subst_items(m0, done), item@)) by {
                assert(done.push(item@).drop_last() =~= done);
            }
        }
        if e >= v.len() {
            proof {
                assert(split_from(v@, start as int, ',') =~= seq![item@]);
                done = done.push(item@);
                assert(split_from(v@, 0, ',') =~= done);
            }
            return;
        }
        proof {
            assert(split_from(v@, start as int, ',') =~= seq![item@] + split_from(v@, e + 1, ','));
            assert(done + split_from(v@, start as int, ',') =~= done.push(item@) + split_from(v@, e + 1, ','));
            done = done.push(item@);
        }
        start = e + 1;
    }
}

/// What a line of a `.db` file does while includes are expanded.
#[derive(Debug, Clone, PartialEq, Eq)]
pub enum DbLine {
    /// A `substitute` directive with its quoted items.
    Substitute(String),
    /// An `include` directive with its file name, macros expanded.
    Include(String),
    /// Any other line, macros expanded.
    Text(String),
}

/// Classify one line under the macros in force.
pub fn classify_db_line(line: &str, macros: &NameMap<String>) -> (r: DbLine)
    requires
        macros.wf(),
    ensures
        match r {
            DbLine::Substitute(a) => directive_arg(line@, "substitute"@) == Some(a@),
            DbLine::Include(f) => directive_arg(line@, "substitute"@) is None
                && directive_arg(line@, "include"@) is Some
                && f@ == substituted(directive_arg(line@, "include"@)->0, str_map(macros.map())),
            DbLine::Text(t) => directive_arg(line@, "substitute"@) is None
                && directive_arg(line@, "include"@) is None
                && t@ == substituted(line@, str_map(macros.map())),
        },
{
    if let Some(a) = parse_substitute_directive(line) {
        return DbLine::Substitute(a);
    }
    if let Some(name) = parse_include_directive(line) {
        let mut out: Vec<char> = Vec::new();
        subst_into(&mut out, &chars_of(name.as_str()), macros);
        return DbLine::Include(string_of_vec(&out));
    }
    let mut out: Vec<char> = Vec::new();
    subst_into(&mut out, &chars_of(line), macros);
    DbLine::Text(string_of_vec(&out))
}

/// The names joined with `sep` between them.
pub open spec fn joined(v: Seq<Seq<char>>, sep: Seq<char>) -> Seq<char>
    decreases v.len(),
{
    if v.len() == 0 {
        Seq::empty()
    } else if v.len() == 1 {
        v[0]
    } else {
        joined(v.drop_last(), sep) + sep + v.last()
    }
}

/// Why a file may not be included by the files on `stack`: it is already
/// being read (a cycle), or the stack is as deep as allowed.
pub open spec fn include_refusal(stack: Seq<Seq<char>>, path: Seq<char>, max_depth: nat) -> Option<Seq<char>> {
    if stack.contains(path) {
        Some("circular include: "@ + joined(stack, " -> "@) + " -> "@ + path)
    } else if stack.len() >= max_depth {
        Some("include depth limit ("@ + decimal(max_depth) + ") exceeded at '"@ + path + "'"@)
    } else {
        None
    }
}

/// A chain of distinct files, each including the next, is read with the
/// files before each on the include stack: every file is admitted exactly
/// when the chain is no longer than the depth limit, and a longer chain is
/// refused first at the file just past the limit, for its depth.
pub proof fn include_chain_depth(files: Seq<Seq<char>>, max_depth: nat)
    requires
        files.no_duplicates(),
    ensures
        (forall|k: int| 0 <= k < files.len() ==> #[trigger] include_refusal(files.subrange(0, k), files[k], max_depth) is None)
            <==> files.len() <= max_depth,
        forall|k: int| 0 <= k < files.len() && k < max_depth ==> #[trigger] include_refusal(files.subrange(0, k), files[k], max_depth) is None,
        files.len() > max_depth ==> include_refusal(files.subrange(0, max_depth as int), files[max_depth as int], max_depth)
            == Some("include depth limit ("@ + decimal(max_depth) + ") exceeded at '"@ + files[max_depth as int] + "'"@),
{
    assert forall|k: int| 0 <= k < files.len() implies !#[trigger] files.subrange(0, k).contains(files[k]) by {
        if files.subrange(0, k).contains(files[k]) {
            let j = choose|j: int| 0 <= j < k && files.subrange(0, k)[j] == files[k];
            assert(files[j] == files[k]);
        }
    }
    if files.len() > max_depth {
        let k = max_depth as int;
        assert(!files.subrange(0, k).contains(files[k]));
        assert(include_refusal(files.subrange(0, k), files[k], max_depth) is Some);
    }
}

/// Check whether `path` may be included by the files on `stack` (the
/// outermost first).
pub fn check_include(stack: &Vec<String>, path: &str, max_depth: usize) -> (r: Result<(), CaError>)
    ensures
        match r {
            Ok(()) => include_refusal(string_views(stack@), path@, max_depth as nat) is None,
            Err(e) => include_refusal(string_views(stack@), path@, max_depth as nat) == Some(e.model().message)
                && e.model().line == 0 && e.model().column == 0,
        },
{
    let pv = chars_of(path);
    let ghost sv = string_views(stack@);
    let mut i: usize = 0;
    let mut found = false;
    let mut chain: Vec<char> = Vec::new();
    while i < stack.len()
        invariant
            i <= stack@.len(),
            sv == string_views(stack@),
            pv@ == path@,
            found <==> (exists|k: int| 0 <= k < i && #[trigger] sv[k] == path@),
            chain@ == joined(sv.subrange(0, i as int), " -> "@),
        decreases stack.len() - i,
    {
        let sc = chars_of(stack[i].as_str());
        if crate::text::chars_eq(&sc, &pv) {
            found = true;
        }
        proof {
            assert(sv.subrange(0, i + 1).drop_last() =~= sv.subrange(0, i as int));
            assert(sv.subrange(0, i + 1).last() == sc@);
            assert(sv[i as int] == sc@);
        }
        if i > 0 {
            push_str(&mut chain, " -> ");
        }
        push_all(&mut chain, &sc);
        proof {
            if i == 0 {
                assert(chain@ =~= joined(sv.subrange(0, 1), " -> "@));
            }
        }
        i = i + 1;
    }
    assert(sv.subrange(0, stack@.len() as int) =~= sv);
    if found {
        let mut msg: Vec<char> = Vec::new();
        push_str(&mut msg, "circular include: ");
        push_all(&mut msg, &chain);
        push_str(&mut msg, " -> ");
        push_all(&mut msg, &pv);
        assert(msg@ =~= "circular include: "@ + joined(sv, " -> "@) + " -> "@ + path@);
        return Err(parse_error(0, 0, msg));
    }
    if stack.len() >= max_depth {
        let mut msg: Vec<char> = Vec::new();
        push_str(&mut msg, "include depth limit (");
        push_decimal(&mut msg, max_depth as u64);
        push_str(&mut msg, ") exceeded at '");
        push_all(&mut msg, &pv);
        push_str(&mut msg, "'");
        assert(msg@ =~= "include depth limit ("@ + decimal(max_depth as nat) + ") exceeded at '"@ + path@ + "'"@);
        return Err(parse_error(0, 0, msg));
    }
    Ok(())
}

/// A record with the value of each DTYP field replaced by `d`.
pub open spec fn dtyp_overridden(r: RecordModel, d: Seq<char>) -> RecordModel {
    RecordModel {
        fields: Seq::new(
            r.fields.len(),
            |j: int| if r.fields[j].0 == "DTYP"@ { (r.fields[j].0, d) } else { r.fields[j] },
        ),
        ..r
    }
}

/// Override DTYP fields on records that already have a DTYP field.
pub fn override_dtyp(records: &mut Vec<DbRecordDef>, dtyp: &str)
    ensures
        records_view(final(records)@) == Seq::new(
            old(records)@.len(),
            |i: int| dtyp_overridden(records_view(old(records)@)[i], dtyp@),
        ),
{
    let ghost old_view = records_view(records@);
    let mut i: usize = 0;
    while i < records.len()
        invariant
            i <= records@.len(),
            records@.len() == old_view.len(),
            forall|k: int| 0 <= k < i ==> #[trigger] records_view(records@)[k] == dtyp_overridden(old_view[k], dtyp@),
            forall|k: int| i <= k < records@.len() ==> #[trigger] records_view(records@)[k] == old_view[k],
        decreases records.len() - i,
    {
        let ghost rm = records_view(records@)[i as int];
        let mut fields: Vec<(String, String)> = Vec::new();
        let mut j: usize = 0;
        while j < records[i].fields.len()
            invariant
                i < records@.len(),
                rm == records@[i as int].model(),
                j <= rm.fields.len(),
                pairs_view(fields@) == dtyp_overridden(rm, dtyp@).fields.subrange(0, j as int),
            decreases records[i as int].fields.len() - j,
        {
            let name = records[i].fields[j].0.clone();
            let is_dtyp = crate::text::str_eq(name.as_str(), "DTYP");
            let value = if is_dtyp {
                dtyp.to_owned()
            } else {
                records[i].fields[j].1.clone()
            };
            let ghost prev = pairs_view(fields@);
            proof {
                assert(rm.fields[j as int] == (records@[i as int].fields@[j as int].0@, records@[i as int].fields@[j as int].1@));
                assert(dtyp_overridden(rm, dtyp@).fields[j as int] == (name@, value@));
            }
            fields.push((name, value));
            assert(pairs_view(fields@) =~= prev.push((name@, value@)));
            assert(pairs_view(fields@) =~= dtyp_overridden(rm, dtyp@).fields.subrange(0, j + 1));
            j = j + 1;
        }
        let def = DbRecordDef {
            record_type: records[i].record_type.clone(),
            name: records[i].name.clone(),
            fields,
        };
        assert(pairs_view(fields@) =~= dtyp_overridden(rm, dtyp@).fields);
        assert(def.model() == dtyp_overridden(rm, dtyp@));
        let ghost before = records@;
        records.set(i, def);
        proof {
            assert forall|k: int| 0 <= k < records@.len() implies #[trigger] records_view(records@)[k] == (if k == i {
                def.model()
            } else {
                records_view(before)[k]
            }) by {
                assert(records@[k] == if k == i { def } else { before[k] });
            }
        }
        i = i + 1;
    }
    assert(records_view(records@) =~= Seq::new(
        old(records)@.len(),
        |i: int| dtyp_overridden(records_view(old(records)@)[i], dtyp@),
    ));
}

} // verus!
