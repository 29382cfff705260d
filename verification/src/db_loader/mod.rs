//! Loading of EPICS `.db` files: macro substitution and the record grammar.
use vstd::prelude::*;
use crate::autosave::macros::str_map;
use crate::name_map::NameMap;
use crate::text::{chars_of, find_from, lemma_find_from, push_all, push_str, string_of_vec, sub_vec};
use crate::error::CaError;
use crate::db_loader::grammar::{
    body_from, cursor_ok, db_records, fail, lemma_body_from, lemma_db_word_end, lemma_header_at,
    lemma_skip_blank, records_from, skip_blank, DbFail, RecordModel,
};
use crate::db_loader::reader::{
    field_x, header_x, paren_skip_x, parse_error, pos_view, skip_blank_x, word_end_x, Pos,
};

pub mod grammar;
pub mod reader;
pub mod includes;

verus! {

/// Whether a `$(` or `${` starts at `i`.
pub open spec fn opens_at(s: Seq<char>, i: int) -> bool {
    0 <= i && i + 1 < s.len() && s[i] == '$' && (s[i + 1] == '(' || s[i + 1] == '{')
}

/// Whether `c` closes a reference at nesting `depth` whose outermost
/// delimiter is `close`: at the outermost level only that delimiter, inside
/// nested references either one.
pub open spec fn closes(c: char, depth: nat, close: char) -> bool {
    (depth == 1 && c == close) || (depth > 1 && (c == ')' || c == '}'))
}

/// The scan for the end of a reference from `j` at nesting `depth`: the
/// index where the nesting reaches zero, with depth 0, or where the text
/// ends, with the depth still open.
pub open spec fn close_scan(s: Seq<char>, j: int, depth: nat, close: char) -> (int, nat)
    decreases s.len() - j,
{
    if j < 0 || j >= s.len() || depth == 0 {
        (j, depth)
    } else if opens_at(s, j) {
        close_scan(s, j + 2, depth + 1, close)
    } else if closes(s[j], depth, close) {
        if depth == 1 {
            (j, 0)
        } else {
            close_scan(s, j + 1, (depth - 1) as nat, close)
        }
    } else {
        close_scan(s, j + 1, depth, close)
    }
}

pub proof fn lemma_close_scan(s: Seq<char>, j: int, depth: nat, close: char)
    requires
        0 <= j <= s.len(),
    ensures
        j <= close_scan(s, j, depth, close).0 <= s.len(),
        depth > 0 && close_scan(s, j, depth, close).1 == 0 ==> close_scan(s, j, depth, close).0 < s.len(),
        depth > 0 && close_scan(s, j, depth, close).1 != 0 ==> close_scan(s, j, depth, close).0 == s.len(),
    decreases s.len() - j,
{
    if j < s.len() && depth > 0 {
        if opens_at(s, j) {
            lemma_close_scan(s, j + 2, depth + 1, close);
        } else if closes(s[j], depth, close) {
            if depth > 1 {
                lemma_close_scan(s, j + 1, (depth - 1) as nat, close);
            }
        } else {
            lemma_close_scan(s, j + 1, depth, close);
        }
    }
}

/// A default value with its outer double quotes removed, when it has them.
pub open spec fn unquote_default(d: Seq<char>) -> Seq<char> {
    if d.len() >= 2 && d[0] == '"' && d.last() == '"' {
        d.subrange(1, d.len() - 1)
    } else {
        d
    }
}

/// What the body `content` of a closed reference stands for: the value of
/// a defined macro; for an undefined one with a default, the default (outer
/// quotes removed, itself expanded); otherwise `$(content)`.
pub open spec fn ref_piece(content: Seq<char>, m: Map<Seq<char>, Seq<char>>) -> Seq<char>
    decreases content.len(), 0int,
{
    let eq = find_from(content, 0, '=');
    proof {
        lemma_find_from(content, 0, '=');
    }
    let name = content.subrange(0, eq);
    if m.contains_key(name) {
        m[name]
    } else if eq < content.len() {
        subst_from(unquote_default(content.subrange(eq + 1, content.len() as int)), 0, m)
    } else {
        "$("@ + content + ")"@
    }
}

/// `s[i..]` with every `$(NAME)`, `${NAME}` and `$(NAME=default)` replaced
/// as [`ref_piece`] says. A reference that is never closed is copied.
pub open spec fn subst_from(s: Seq<char>, i: int, m: Map<Seq<char>, Seq<char>>) -> Seq<char>
    decreases s.len(), s.len() - i,
{
    if i < 0 || i >= s.len() {
        Seq::empty()
    } else if opens_at(s, i) {
        let close = if s[i + 1] == '(' { ')' } else { '}' };
        let (j, d) = close_scan(s, i + 2, 1, close);
        proof {
            lemma_close_scan(s, i + 2, 1, close);
        }
        if d == 0 {
            ref_piece(s.subrange(i + 2, j), m) + subst_from(s, j + 1, m)
        } else {
            seq![s[i]] + subst_from(s, i + 1, m)
        }
    } else {
        seq![s[i]] + subst_from(s, i + 1, m)
    }
}

/// The text with all macro references substituted.
pub open spec fn substituted(s: Seq<char>, m: Map<Seq<char>, Seq<char>>) -> Seq<char> {
    subst_from(s, 0, m)
}

/// Finds where the reference whose body starts at `start` ends.
fn find_close(s: &Vec<char>, start: usize, close: char) -> (r: (usize, usize))
    requires
        start <= s.len(),
    ensures
        (r.0 as int, r.1 as nat) == close_scan(s@, start as int, 1, close),
{
    let mut depth: usize = 1;
    let mut j: usize = start;
    let mut done = false;
    while j < s.len() && !done
        invariant
            start <= j <= s.len(),
            depth >= 1,
            depth <= j + 1,
            !done ==> close_scan(s@, start as int, 1, close) == close_scan(s@, j as int, depth as nat, close),
            done ==> close_scan(s@, start as int, 1, close) == (j as int, 0nat),
        decreases s.len() - j + (if done { 0int } else { 1int }),
    {
        if j + 1 < s.len() && s[j] == '$' && (s[j + 1] == '(' || s[j + 1] == '{') {
            depth = depth + 1;
            j = j + 2;
        } else if (depth == 1 && s[j] == close) || (depth > 1 && (s[j] == ')' || s[j] == '}')) {
            if depth == 1 {
                done = true;
            } else {
                depth = depth - 1;
                j = j + 1;
            }
        } else {
            j = j + 1;
        }
    }
    if done {
        (j, 0)
    } else {
        (j, depth)
    }
}

/// Appends what the body of a closed reference stands for.
fn push_ref(out: &mut Vec<char>, content: &Vec<char>, macros: &NameMap<String>)
    requires
        macros.wf(),
    ensures
        final(out)@ == old(out)@ + ref_piece(content@, str_map(macros.map())),
    decreases content@.len(), 0int,
{
    let ghost m = str_map(macros.map());
    let eq = crate::text::find_char(content, 0, '=');
    proof {
        lemma_find_from(content@, 0, '=');
    }
    let name = sub_vec(content, 0, eq);
    let name_s = string_of_vec(&name);
    match macros.get(name_s.as_str()) {
        Some(v) => {
            let vv = chars_of(v.as_str());
            push_all(out, &vv);
        },
        None => {
            if eq < content.len() {
                let raw = sub_vec(content, eq + 1, content.len());
                let def = if raw.len() >= 2 && raw[0] == '"' && raw[raw.len() - 1] == '"' {
                    sub_vec(&raw, 1, raw.len() - 1)
                } else {
                    raw
                };
                subst_into(out, &def, macros);
            } else {
                let ghost before = out@;
                out.push('$');
                out.push('(');
                push_all(out, content);
                out.push(')');
                proof {
                    reveal_strlit("$(");
                    reveal_strlit(")");
                    assert(out@ =~= before + ("$("@ + content@ + ")"@));
                }
            }
        },
    }
}

/// Appends `s` with its macro references substituted.
pub(crate) fn subst_into(out: &mut Vec<char>, s: &Vec<char>, macros: &NameMap<String>)
    requires
        macros.wf(),
    ensures
        final(out)@ == old(out)@ + substituted(s@, str_map(macros.map())),
    decreases s@.len(), 1int,
{
    let ghost m = str_map(macros.map());
    let ghost out0 = out@;
    let mut i: usize = 0;
    while i < s.len()
        invariant
            i <= s.len(),
            macros.wf(),
            m == str_map(macros.map()),
            out0 + substituted(s@, m) == out@ + subst_from(s@, i as int, m),
        decreases s.len() - i,
    {
        let ghost before = out@;
        if i + 1 < s.len() && s[i] == '$' && (s[i + 1] == '(' || s[i + 1] == '{') {
            let close = if s[i + 1] == '(' { ')' } else { '}' };
            let (j, d) = find_close(s, i + 2, close);
            proof {
                lemma_close_scan(s@, i + 2, 1, close);
            }
            if d == 0 {
                let content = sub_vec(s, i + 2, j);
                push_ref(out, &content, macros);
                proof {
                    assert(out@ =~= before + ref_piece(content@, m));
                }
                i = j + 1;
            } else {
                out.push(s[i]);
                i = i + 1;
            }
        } else {
            out.push(s[i]);
            i = i + 1;
        }
    }
}

/// Expand `$(NAME)`, `${NAME}` and `$(NAME=default)` references in `input`.
pub fn substitute_macros(input: &str, macros: &NameMap<String>) -> (r: String)
    requires
        macros.wf(),
    ensures
        r@ == substituted(input@, str_map(macros.map())),
{
    let s = chars_of(input);
    let mut out: Vec<char> = Vec::new();
    subst_into(&mut out, &s, macros);
    assert(out@ =~= substituted(s@, str_map(macros.map())));
    string_of_vec(&out)
}

/// A record definition parsed from a .db file.
#[derive(Debug, Clone)]
pub struct DbRecordDef {
    pub record_type: String,
    pub name: String,
    pub fields: Vec<(String, String)>,
}

/// A list of name/value string pairs as character sequences.
pub open spec fn pairs_view(v: Seq<(String, String)>) -> Seq<(Seq<char>, Seq<char>)> {
    Seq::new(v.len(), |i: int| (v[i].0@, v[i].1@))
}

impl DbRecordDef {
    pub open spec fn model(&self) -> RecordModel {
        RecordModel { record_type: self.record_type@, name: self.name@, fields: pairs_view(self.fields@) }
    }
}

/// The models of a list of record definitions.
pub open spec fn records_view(v: Seq<DbRecordDef>) -> Seq<RecordModel> {
    Seq::new(v.len(), |i: int| v[i].model())
}

/// Whether `s[lo..hi]` is the word `w`.
fn word_is(s: &Vec<char>, lo: usize, hi: usize, w: &str) -> (r: bool)
    requires
        lo <= hi <= s.len(),
    ensures
        r == (s@.subrange(lo as int, hi as int) == w@),
{
    let sub = sub_vec(s, lo, hi);
    crate::text::chars_eq_str(&sub, w)
}

/// The fields of a record body up to its closing `}`.
fn body_x(s: &Vec<char>, k: Pos) -> (r: Result<(Vec<(String, String)>, Pos), CaError>)
    requires
        s@.len() < usize::MAX,
        cursor_ok(pos_view(k), s@.len() as int),
    ensures
        match r {
            Ok((fs, k2)) => body_from(s@, k.0 as int, k.1 as int, k.2 as int, Seq::empty())
                == Ok::<(Seq<(Seq<char>, Seq<char>)>, (int, int, int)), DbFail>((pairs_view(fs@), pos_view(k2)))
                && cursor_ok(pos_view(k2), s@.len() as int),
            Err(e) => body_from(s@, k.0 as int, k.1 as int, k.2 as int, Seq::empty())
                == Err::<(Seq<(Seq<char>, Seq<char>)>, (int, int, int)), DbFail>(e.model()),
        },
{
    let mut fields: Vec<(String, String)> = Vec::new();
    let mut cur = k;
    assert(pairs_view(fields@) =~= Seq::<(Seq<char>, Seq<char>)>::empty());
    loop
        invariant
            s@.len() < usize::MAX,
            cursor_ok(pos_view(cur), s@.len() as int),
            body_from(s@, k.0 as int, k.1 as int, k.2 as int, Seq::empty())
                == body_from(s@, cur.0 as int, cur.1 as int, cur.2 as int, pairs_view(fields@)),
        decreases s.len() - cur.0,
    {
        let ghost before = pairs_view(fields@);
        let (p1, l1, c1) = skip_blank_x(s, cur);
        if p1 >= s.len() {
            let mut msg: Vec<char> = Vec::new();
            push_str(&mut msg, "unexpected end of file in record body");
            return Err(parse_error(l1, c1, msg));
        }
        if s[p1] == '}' {
            return Ok((fields, (p1 + 1, l1, c1 + 1)));
        }
        let e = word_end_x(s, p1);
        proof {
            lemma_db_word_end(s@, p1 as int);
            reveal_strlit("field");
            reveal_strlit("info");
            reveal_strlit("alias");
        }
        let c2 = c1 + (e - p1);
        let is_field = word_is(s, p1, e, "field");
        let is_info = word_is(s, p1, e, "info");
        let is_alias = word_is(s, p1, e, "alias");
        if !is_field && !is_info && !is_alias {
            let mut msg: Vec<char> = Vec::new();
            push_str(&mut msg, "expected 'field', got '");
            let kw = sub_vec(s, p1, e);
            push_all(&mut msg, &kw);
            push_str(&mut msg, "'");
            assert(msg@ =~= "expected 'field', got '"@ + s@.subrange(p1 as int, e as int) + "'"@);
            return Err(parse_error(l1, c2, msg));
        }
        if !is_field {
            proof {
                let kw = s@.subrange(p1 as int, e as int);
                assert(kw.len() == "info"@.len() || kw.len() == "alias"@.len());
                assert("alias"@[0] != "field"@[0]);
                assert(kw != "field"@);
            }
            let (p3, l3, c3) = skip_blank_x(s, (e, l1, c2));
            if p3 < s.len() && s[p3] == '(' {
                cur = paren_skip_x(s, (p3 + 1, l3, c3 + 1));
            } else {
                cur = (p3, l3, c3);
            }
        } else {
            let (name, v, k2) = field_x(s, (e, l1, c2))?;
            proof {
                lemma_field_pos(s@, e as int, l1 as int, c2 as int);
            }
            fields.push((string_of_vec(&name), string_of_vec(&v)));
            assert(pairs_view(fields@) =~= before.push((name@, v@)));
            cur = k2;
        }
    }
}

proof fn lemma_field_pos(s: Seq<char>, p: int, l: int, c: int)
    requires
        0 <= p <= s.len(),
    ensures
        crate::db_loader::grammar::field_at(s, p, l, c) matches Ok((_, _, k)) ==> p < k.0,
{
    crate::db_loader::grammar::lemma_field_at(s, p, l, c);
}

/// Parses the records of an expanded `.db` text.
fn records_x(s: &Vec<char>) -> (r: Result<Vec<DbRecordDef>, CaError>)
    requires
        s@.len() < usize::MAX,
    ensures
        match r {
            Ok(v) => db_records(s@) == Ok::<Seq<RecordModel>, DbFail>(records_view(v@)),
            Err(e) => db_records(s@) == Err::<Seq<RecordModel>, DbFail>(e.model()),
        },
{
    let mut records: Vec<DbRecordDef> = Vec::new();
    let mut cur: Pos = (0, 1, 1);
    assert(records_view(records@) =~= Seq::<RecordModel>::empty());
    while cur.0 < s.len()
        invariant
            s@.len() < usize::MAX,
            cursor_ok(pos_view(cur), s@.len() as int),
            db_records(s@) == records_from(s@, cur.0 as int, cur.1 as int, cur.2 as int, records_view(records@)),
        decreases s.len() - cur.0,
    {
        let ghost before = records_view(records@);
        let (p1, l1, c1) = skip_blank_x(s, cur);
        if p1 >= s.len() {
            return Ok(records);
        }
        let e = word_end_x(s, p1);
        proof {
            lemma_db_word_end(s@, p1 as int);
            reveal_strlit("record");
            reveal_strlit("grecord");
        }
        let c2 = c1 + (e - p1);
        if e == p1 {
            cur = (p1 + 1, l1, c2 + 1);
        } else if !word_is(s, p1, e, "record") && !word_is(s, p1, e, "grecord") {
            let mut msg: Vec<char> = Vec::new();
            push_str(&mut msg, "expected 'record', got '");
            let w = sub_vec(s, p1, e);
            push_all(&mut msg, &w);
            push_str(&mut msg, "'");
            assert(msg@ =~= "expected 'record', got '"@ + s@.subrange(p1 as int, e as int) + "'"@);
            return Err(parse_error(l1, c2, msg));
        } else {
            let (t, n, k) = header_x(s, (e, l1, c2))?;
            proof {
                lemma_header_at(s@, e as int, l1 as int, c2 as int);
            }
            let (fs, k2) = body_x(s, k)?;
            proof {
                lemma_body_from(s@, k.0 as int, k.1 as int, k.2 as int, Seq::empty());
            }
            let def = DbRecordDef { record_type: string_of_vec(&t), name: string_of_vec(&n), fields: fs };
            records.push(def);
            assert(records_view(records@) =~= before.push(RecordModel { record_type: t@, name: n@, fields: pairs_view(fs@) }));
            cur = k2;
        }
    }
    Ok(records)
}

/// What `parse_db` answers for an expanded text: its records, or the error.
/// A text of `usize::MAX` characters, whose line and column numbers could
/// not be counted, is refused.
pub open spec fn db_outcome(t: Seq<char>) -> Result<Seq<RecordModel>, DbFail> {
    if t.len() >= usize::MAX {
        Err(fail(0, 0, "input too large"@))
    } else {
        db_records(t)
    }
}

/// Parse an EPICS .db file with macro substitution.
pub fn parse_db(input: &str, macros: &NameMap<String>) -> (r: Result<Vec<DbRecordDef>, CaError>)
    requires
        macros.wf(),
    ensures
        match r {
            Ok(v) => db_outcome(substituted(input@, str_map(macros.map()))) == Ok::<Seq<RecordModel>, DbFail>(records_view(v@)),
            Err(e) => db_outcome(substituted(input@, str_map(macros.map()))) == Err::<Seq<RecordModel>, DbFail>(e.model()),
        },
{
    let s = chars_of(input);
    let mut expanded: Vec<char> = Vec::new();
    subst_into(&mut expanded, &s, macros);
    assert(expanded@ =~= substituted(input@, str_map(macros.map())));
    if expanded.len() == usize::MAX {
        let mut msg: Vec<char> = Vec::new();
        push_str(&mut msg, "input too large");
        return Err(parse_error(0, 0, msg));
    }
    records_x(&expanded)
}

} // verus!
