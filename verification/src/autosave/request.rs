//! Request files (`.req`): one PV name per line, `#` comments, macros, and
//! `file` include directives.
use vstd::prelude::*;
use crate::autosave::error::AutosaveError;
use crate::autosave::macros::{expansion, inline_macros, str_map, MacroContext};
use crate::autosave::format::MAX_INCLUDE_DEPTH;
use crate::name_map::NameMap;
use crate::text::{string_views, 
    chars_eq, chars_of, find_char, find_from, is_white, lemma_find_from, lines, push_decimal,
    push_str, split_lines, starts_with, string_of_vec, sub_vec, trim, trim_bounds, trim_vec,
    views_of, char_is_white, decimal, has_prefix_at, prefix_at_str,
};

verus! {

/// A single entry parsed from a .req file.
#[derive(Debug, Clone)]
pub struct RequestEntry {
    pub pv_name: String,
    pub source_file: String,
    pub line_no: usize,
    /// The text as written, before macro expansion (if different from pv_name).
    pub expanded_from: Option<String>,
}

/// What an entry says.
pub struct EntryModel {
    pub pv_name: Seq<char>,
    pub source_file: Seq<char>,
    pub line_no: int,
    pub expanded_from: Option<Seq<char>>,
}

impl RequestEntry {
    pub open spec fn model(&self) -> EntryModel {
        EntryModel {
            pv_name: self.pv_name@,
            source_file: self.source_file@,
            line_no: self.line_no as int,
            expanded_from: match self.expanded_from {
                Some(s) => Some(s@),
                None => None,
            },
        }
    }
}

pub open spec fn entries_model(v: Seq<RequestEntry>) -> Seq<EntryModel> {
    Seq::new(v.len(), |i: int| v[i].model())
}

/// Why a request text was refused.
pub enum RequestFail {
    /// A `file` include at the given line number.
    FileInclude(int),
    /// An undefined macro without default: the key and the line number.
    Undefined(Seq<char>, int),
}

/// The message for a `file` include met in string mode.
pub open spec fn file_include_message(line_no: int) -> Seq<char> {
    "file include not supported in parse_request_string at line "@ + decimal(line_no as nat)
}

/// A line is skipped when it is empty or a comment once trimmed.
pub open spec fn skipped_line(t: Seq<char>) -> bool {
    t.len() == 0 || t[0] == '#'
}

/// A `file` directive line.
pub open spec fn is_file_line(t: Seq<char>) -> bool {
    starts_with(t, "file "@) || starts_with(t, "file\t"@)
}

/// The entries of lines `k..` of a request text, after those in `acc`.
pub open spec fn request_from(
    m: Map<Seq<char>, Seq<char>>,
    env: Map<Seq<char>, Seq<char>>,
    ls: Seq<Seq<char>>,
    k: int,
    src: Seq<char>,
    acc: Seq<EntryModel>,
) -> Result<Seq<EntryModel>, RequestFail>
    decreases ls.len() - k,
{
    if k < 0 || k >= ls.len() {
        Ok(acc)
    } else {
        let t = trim(ls[k]);
        if skipped_line(t) {
            request_from(m, env, ls, k + 1, src, acc)
        } else if is_file_line(t) {
            Err(RequestFail::FileInclude(k + 1))
        } else {
            match expansion(m, env, t) {
                Err(key) => Err(RequestFail::Undefined(key, k + 1)),
                Ok(x) => request_from(
                    m,
                    env,
                    ls,
                    k + 1,
                    src,
                    acc.push(
                        EntryModel {
                            pv_name: x,
                            source_file: src,
                            line_no: k + 1,
                            expanded_from: if x != t { Some(t) } else { None },
                        },
                    ),
                ),
            }
        }
    }
}

/// The entries of a request text read without include support.
pub open spec fn request_entries(
    m: Map<Seq<char>, Seq<char>>,
    env: Map<Seq<char>, Seq<char>>,
    content: Seq<char>,
    src: Seq<char>,
) -> Result<Seq<EntryModel>, RequestFail> {
    request_from(m, env, lines(content), 0, src, seq![])
}

/// The numbers (from 1) of the lines from `k` on that hold a request: not
/// blank and not a comment once trimmed.
pub open spec fn kept_lines(ls: Seq<Seq<char>>, k: int) -> Seq<int>
    decreases ls.len() - k,
{
    if k < 0 || k >= ls.len() {
        seq![]
    } else if skipped_line(trim(ls[k])) {
        kept_lines(ls, k + 1)
    } else {
        seq![k + 1] + kept_lines(ls, k + 1)
    }
}

/// The entry of line number `n`: its trimmed text expanded, where it came
/// from, and the text as written when expansion changed it.
pub open spec fn entry_of_line(m: Map<Seq<char>, Seq<char>>, env: Map<Seq<char>, Seq<char>>, ls: Seq<Seq<char>>, n: int, src: Seq<char>) -> EntryModel {
    let t = trim(ls[n - 1]);
    let x = expansion(m, env, t)->Ok_0;
    EntryModel { pv_name: x, source_file: src, line_no: n, expanded_from: if x != t { Some(t) } else { None } }
}

/// The lines of `ks` are no `file` lines and expand without error.
pub open spec fn plain_lines(m: Map<Seq<char>, Seq<char>>, env: Map<Seq<char>, Seq<char>>, ls: Seq<Seq<char>>, ks: Seq<int>) -> bool {
    forall|i: int| 0 <= i < ks.len() ==> {
        let t = trim(ls[#[trigger] ks[i] - 1]);
        !is_file_line(t) && expansion(m, env, t) is Ok
    }
}

proof fn lemma_request_from(m: Map<Seq<char>, Seq<char>>, env: Map<Seq<char>, Seq<char>>, ls: Seq<Seq<char>>, k: int, src: Seq<char>, acc: Seq<EntryModel>)
    requires
        0 <= k <= ls.len(),
        plain_lines(m, env, ls, kept_lines(ls, k)),
    ensures
        request_from(m, env, ls, k, src, acc) == Ok::<Seq<EntryModel>, RequestFail>(
            acc + Seq::new(kept_lines(ls, k).len(), |i: int| entry_of_line(m, env, ls, kept_lines(ls, k)[i], src))),
    decreases ls.len() - k,
{
    let ks = kept_lines(ls, k);
    if k == ls.len() {
        assert(acc + Seq::new(ks.len(), |i: int| entry_of_line(m, env, ls, ks[i], src)) =~= acc);
    } else {
        let rest = kept_lines(ls, k + 1);
        let t = trim(ls[k]);
        if skipped_line(t) {
            lemma_request_from(m, env, ls, k + 1, src, acc);
        } else {
            assert(ks[0] == k + 1);
            assert(plain_lines(m, env, ls, rest)) by {
                assert forall|i: int| 0 <= i < rest.len() implies {
                    let u = trim(ls[#[trigger] rest[i] - 1]);
                    !is_file_line(u) && expansion(m, env, u) is Ok
                } by {
                    assert(ks[i + 1] == rest[i]);
                }
            }
            let e = entry_of_line(m, env, ls, k + 1, src);
            lemma_request_from(m, env, ls, k + 1, src, acc.push(e));
            assert(acc.push(e) + Seq::new(rest.len(), |i: int| entry_of_line(m, env, ls, rest[i], src))
                =~= acc + Seq::new(ks.len(), |i: int| entry_of_line(m, env, ls, ks[i], src)));
        }
    }
}

/// A request text whose kept lines are no `file` lines and expand without
/// error gives one entry per kept line, in order: its expanded text, the
/// source name, its line number, and the text as written when expansion
/// changed it.
pub proof fn request_entries_per_line(m: Map<Seq<char>, Seq<char>>, env: Map<Seq<char>, Seq<char>>, content: Seq<char>, src: Seq<char>)
    requires
        plain_lines(m, env, lines(content), kept_lines(lines(content), 0)),
    ensures
        request_entries(m, env, content, src) == Ok::<Seq<EntryModel>, RequestFail>(
            Seq::new(kept_lines(lines(content), 0).len(), |i: int| entry_of_line(m, env, lines(content), kept_lines(lines(content), 0)[i], src))),
{
    let ls = lines(content);
    lemma_request_from(m, env, ls, 0, src, seq![]);
    let ks = kept_lines(ls, 0);
    assert(Seq::<EntryModel>::empty() + Seq::new(ks.len(), |i: int| entry_of_line(m, env, ls, ks[i], src))
        =~= Seq::new(ks.len(), |i: int| entry_of_line(m, env, ls, ks[i], src)));
}

/// Load a .req file from a string (for testing without filesystem).
/// Keys bound nowhere are looked up in `env`, the process environment.
pub fn parse_request_string(
    content: &str,
    macros: &MacroContext,
    source_name: &str,
    env: &NameMap<String>,
) -> (r: Result<Vec<RequestEntry>, AutosaveError>)
    requires
        macros.wf(),
        env.wf(),
    ensures
        match r {
            Ok(v) => request_entries(macros.bindings(), str_map(env.map()), content@, source_name@)
                == Ok::<Seq<EntryModel>, RequestFail>(entries_model(v@)),
            Err(AutosaveError::RequestFile { path, message }) => request_entries(
                macros.bindings(),
                str_map(env.map()),
                content@,
                source_name@,
            ) matches Err(RequestFail::FileInclude(n)) && path@ == source_name@ && message@
                == file_include_message(n),
            Err(AutosaveError::UndefinedMacro { key, source, line }) => request_entries(
                macros.bindings(),
                str_map(env.map()),
                content@,
                source_name@,
            ) matches Err(RequestFail::Undefined(k, n)) && key@ == k && source@ == source_name@
                && line == n,
            Err(_) => false,
        },
{
    let text = chars_of(content);
    let ls = split_lines(&text);
    let ghost m = macros.bindings();
    let ghost e = str_map(env.map());
    let ghost lv = views_of(ls@);
    let mut entries: Vec<RequestEntry> = Vec::new();
    let mut k: usize = 0;
    assert(entries_model(entries@) =~= Seq::<EntryModel>::empty());
    while k < ls.len()
        invariant
            k <= ls@.len(),
            macros.wf(),
            env.wf(),
            m == macros.bindings(),
            e == str_map(env.map()),
            lv == views_of(ls@),
            lv == lines(content@),
            request_entries(m, e, content@, source_name@) == request_from(
                m,
                e,
                lv,
                k as int,
                source_name@,
                entries_model(entries@),
            ),
        decreases ls.len() - k,
    {
        let line_no: usize = k + 1;
        let t = trim_vec(&ls[k]);
        assert(t@ == trim(lv[k as int]));
        if t.len() == 0 || t[0] == '#' {
            k = k + 1;
            continue;
        }
        let f1 = prefix_at_str(&t, 0, "file ");
        let f2 = prefix_at_str(&t, 0, "file\t");
        if f1 || f2 {
            let mut msg: Vec<char> = Vec::new();
            push_str(&mut msg, "file include not supported in parse_request_string at line ");
            push_decimal(&mut msg, line_no as u64);
            return Err(
                AutosaveError::RequestFile {
                    path: string_of_vec(&chars_of(source_name)),
                    message: string_of_vec(&msg),
                },
            );
        }
        let line_s = string_of_vec(&t);
        let expanded = macros.expand(line_s.as_str(), source_name, line_no, env)?;
        let xv = chars_of(expanded.as_str());
        let same = chars_eq(&xv, &t);
        let expanded_from = if !same {
            Some(line_s)
        } else {
            None
        };
        let entry = RequestEntry {
            pv_name: expanded,
            source_file: string_of_vec(&chars_of(source_name)),
            line_no,
            expanded_from,
        };
        let ghost old_entries = entries@;
        entries.push(entry);
        assert(entries_model(entries@) =~= entries_model(old_entries).push(entry.model()));
        k = k + 1;
    }
    Ok(entries)
}

// ---------------------------------------------------------------------
// `file` directives
// ---------------------------------------------------------------------
/// `t` without one leading comma.
pub open spec fn strip_comma(t: Seq<char>) -> Seq<char> {
    if t.len() > 0 && t[0] == ',' {
        t.drop_first()
    } else {
        t
    }
}

/// Index of the first comma or whitespace at or after `i`, or `s.len()`.
pub open spec fn sep_from(s: Seq<char>, i: int) -> int
    decreases s.len() - i,
{
    if i < 0 || i >= s.len() {
        s.len() as int
    } else if s[i] == ',' || is_white(s[i]) {
        i
    } else {
        sep_from(s, i + 1)
    }
}

pub proof fn lemma_sep_from(s: Seq<char>, i: int)
    requires
        0 <= i <= s.len(),
    ensures
        i <= sep_from(s, i) <= s.len(),
    decreases s.len() - i,
{
    if i < s.len() && !(s[i] == ',' || is_white(s[i])) {
        lemma_sep_from(s, i + 1);
    }
}

/// `file <path>[,] [macros]`: the path (quoted or not) and the macro text.
pub open spec fn file_directive(rest: Seq<char>) -> (Seq<char>, Seq<char>) {
    let r = trim(rest);
    if r.len() > 0 && r[0] == '"' {
        let q = find_from(r, 1, '"');
        if q < r.len() {
            (r.subrange(1, q), trim(strip_comma(trim(r.subrange(q + 1, r.len() as int)))))
        } else {
            (r, seq![])
        }
    } else {
        let end = sep_from(r, 0);
        (r.subrange(0, end), trim(strip_comma(trim(r.subrange(end, r.len() as int)))))
    }
}

/// Copies `t` and applies [`strip_comma`] and [`trim`] to the copy.
fn macros_part(t: &Vec<char>) -> (r: Vec<char>)
    ensures
        r@ == trim(strip_comma(t@)),
{
    if t.len() > 0 && t[0] == ',' {
        let u = sub_vec(t, 1, t.len());
        assert(u@ =~= t@.drop_first());
        trim_vec(&u)
    } else {
        trim_vec(t)
    }
}

/// Parse a file directive: `file <path>[,] [macros]`.
/// Path can be quoted or unquoted. Handles both:
///   file "name.req", P=$(P)
///   file name.req,   P=$(P)
pub fn parse_file_directive(rest: &str) -> (r: (String, String))
    ensures
        (r.0@, r.1@) == file_directive(rest@),
{
    let r = trim_str_vec(rest);
    if r.len() > 0 && r[0] == '"' {
        let q = find_char(&r, 1, '"');
        if q < r.len() {
            let path = sub_vec(&r, 1, q);
            let after = trim_vec(&sub_vec(&r, q + 1, r.len()));
            let macros = macros_part(&after);
            (string_of_vec(&path), string_of_vec(&macros))
        } else {
            let empty: Vec<char> = Vec::new();
            assert(empty@ =~= Seq::<char>::empty());
            (string_of_vec(&r), string_of_vec(&empty))
        }
    } else {
        let mut end: usize = 0;
        while end < r.len() && !(r[end] == ',' || char_is_white(r[end]))
            invariant
                end <= r.len(),
                sep_from(r@, 0) == sep_from(r@, end as int),
            decreases r.len() - end,
        {
            end = end + 1;
        }
        let path = sub_vec(&r, 0, end);
        let after = trim_vec(&sub_vec(&r, end, r.len()));
        let macros = macros_part(&after);
        (string_of_vec(&path), string_of_vec(&macros))
    }
}

fn trim_str_vec(s: &str) -> (r: Vec<char>)
    ensures
        r@ == trim(s@),
{
    let v = chars_of(s);
    trim_vec(&v)
}

// ---------------------------------------------------------------------
// Entry lists
// ---------------------------------------------------------------------
/// Extract just PV names from entries.
pub fn pv_names(entries: &[RequestEntry]) -> (r: Vec<String>)
    ensures
        r@.len() == entries@.len(),
        forall|i: int| 0 <= i < r@.len() ==> #[trigger] r@[i]@ == entries@[i].pv_name@,
{
    let mut r: Vec<String> = Vec::new();
    let mut i: usize = 0;
    while i < entries.len()
        invariant
            i <= entries@.len(),
            r@.len() == i,
            forall|j: int| 0 <= j < i ==> #[trigger] r@[j]@ == entries@[j].pv_name@,
        decreases entries.len() - i,
    {
        r.push(entries[i].pv_name.clone());
        i = i + 1;
    }
    r
}

/// The names of a list of entries.
pub open spec fn names_of(s: Seq<RequestEntry>) -> Seq<Seq<char>> {
    Seq::new(s.len(), |i: int| s[i].pv_name@)
}

/// The entries whose name does not occur again later, in their order.
pub open spec fn keep_last(s: Seq<RequestEntry>) -> Seq<RequestEntry>
    decreases s.len(),
{
    if s.len() == 0 {
        s
    } else {
        let rest = keep_last(s.drop_first());
        if names_of(s.drop_first()).contains(s[0].pv_name@) {
            rest
        } else {
            seq![s[0]] + rest
        }
    }
}

/// After dedup every PV name occurs once, and every name of the request
/// is still there.
pub proof fn dedup_keeps_each_name_once(s: Seq<RequestEntry>)
    ensures
        names_of(keep_last(s)).no_duplicates(),
        forall|n: Seq<char>| names_of(keep_last(s)).contains(n) <==> names_of(s).contains(n),
    decreases s.len(),
{
    if s.len() > 0 {
        let t = s.drop_first();
        dedup_keeps_each_name_once(t);
        let kt = keep_last(t);
        assert(names_of(s) =~= seq![s[0].pv_name@] + names_of(t));
        assert forall|n: Seq<char>| names_of(s).contains(n) <==> (n == s[0].pv_name@ || names_of(t).contains(n)) by {
            if names_of(s).contains(n) && n != s[0].pv_name@ {
                let i = choose|i: int| 0 <= i < names_of(s).len() && names_of(s)[i] == n;
                assert(names_of(t)[i - 1] == n);
            }
            if names_of(t).contains(n) {
                let i = choose|i: int| 0 <= i < names_of(t).len() && names_of(t)[i] == n;
                assert(names_of(s)[i + 1] == n);
            }
            if n == s[0].pv_name@ {
                assert(names_of(s)[0] == n);
            }
        }
        if !names_of(t).contains(s[0].pv_name@) {
            let w = seq![s[0]] + kt;
            assert(names_of(w) =~= seq![s[0].pv_name@] + names_of(kt));
            assert forall|n: Seq<char>| names_of(w).contains(n) <==> (n == s[0].pv_name@ || names_of(kt).contains(n)) by {
                if names_of(w).contains(n) && n != s[0].pv_name@ {
                    let i = choose|i: int| 0 <= i < names_of(w).len() && names_of(w)[i] == n;
                    assert(names_of(kt)[i - 1] == n);
                }
                if names_of(kt).contains(n) {
                    let i = choose|i: int| 0 <= i < names_of(kt).len() && names_of(kt)[i] == n;
                    assert(names_of(w)[i + 1] == n);
                }
                if n == s[0].pv_name@ {
                    assert(names_of(w)[0] == n);
                }
            }
            assert forall|i: int, j: int| 0 <= i < names_of(w).len() && 0 <= j < names_of(w).len() && i != j
                implies names_of(w)[i] != names_of(w)[j] by {
                if i == 0 {
                    assert(names_of(kt).contains(names_of(w)[j]));
                } else if j == 0 {
                    assert(names_of(kt).contains(names_of(w)[i]));
                } else {
                    assert(names_of(w)[i] == names_of(kt)[i - 1]);
                    assert(names_of(w)[j] == names_of(kt)[j - 1]);
                }
            }
        }
    }
}

/// No later entry of `s` has the name of entry `i`.
pub open spec fn is_last_occurrence(s: Seq<RequestEntry>, i: int) -> bool {
    forall|j: int| i < j < s.len() ==> #[trigger] s[j].pv_name@ != s[i].pv_name@
}

/// The entries of `s` from `i` on that no later entry repeats, in order.
pub open spec fn last_occurrences(s: Seq<RequestEntry>, i: int) -> Seq<RequestEntry>
    decreases s.len() - i,
{
    if i < 0 || i >= s.len() {
        seq![]
    } else if is_last_occurrence(s, i) {
        seq![s[i]] + last_occurrences(s, i + 1)
    } else {
        last_occurrences(s, i + 1)
    }
}

proof fn lemma_last_occurrences_shift(s: Seq<RequestEntry>, i: int)
    requires
        s.len() > 0,
        1 <= i <= s.len(),
    ensures
        last_occurrences(s, i) == last_occurrences(s.drop_first(), i - 1),
    decreases s.len() - i,
{
    let t = s.drop_first();
    if i < s.len() {
        lemma_last_occurrences_shift(s, i + 1);
        assert(s[i] == t[i - 1]);
        assert(is_last_occurrence(s, i) == is_last_occurrence(t, i - 1)) by {
            if is_last_occurrence(t, i - 1) {
                assert forall|j: int| i < j < s.len() implies #[trigger] s[j].pv_name@ != s[i].pv_name@ by {
                    assert(s[j] == t[j - 1]);
                }
            }
            if is_last_occurrence(s, i) {
                assert forall|j: int| i - 1 < j < t.len() implies #[trigger] t[j].pv_name@ != t[i - 1].pv_name@ by {
                    assert(s[j + 1] == t[j]);
                }
            }
        }
    }
}

/// Dedup keeps exactly the entries that no later entry repeats by name,
/// in their order.
pub proof fn dedup_keeps_last_occurrences(s: Seq<RequestEntry>)
    ensures
        keep_last(s) == last_occurrences(s, 0),
    decreases s.len(),
{
    if s.len() > 0 {
        let t = s.drop_first();
        dedup_keeps_last_occurrences(t);
        lemma_last_occurrences_shift(s, 1);
        assert(names_of(t).contains(s[0].pv_name@) == !is_last_occurrence(s, 0)) by {
            if names_of(t).contains(s[0].pv_name@) {
                let k = choose|k: int| 0 <= k < names_of(t).len() && names_of(t)[k] == s[0].pv_name@;
                assert(s[k + 1] == t[k]);
                assert(s[k + 1].pv_name@ == s[0].pv_name@);
            }
            if !is_last_occurrence(s, 0) {
                let j = choose|j: int| 0 < j < s.len() && #[trigger] s[j].pv_name@ == s[0].pv_name@;
                assert(names_of(t)[j - 1] == s[j].pv_name@);
            }
        }
    }
}

fn names_contain(names: &Vec<String>, n: &String) -> (r: bool)
    ensures
        r == string_views(names@).contains(n@),
{
    let nv = chars_of(n.as_str());
    let mut i: usize = 0;
    while i < names.len()
        invariant
            i <= names@.len(),
            nv@ == n@,
            forall|j: int| 0 <= j < i ==> names@[j]@ != n@,
        decreases names.len() - i,
    {
        let cv = chars_of(names[i].as_str());
        if chars_eq(&cv, &nv) {
            assert(string_views(names@)[i as int] == n@);
            return true;
        }
        i = i + 1;
    }
    proof {
        if string_views(names@).contains(n@) {
            let j = choose|j: int| 0 <= j < names@.len() && string_views(names@)[j] == n@;
            assert(names@[j]@ == n@);
        }
    }
    false
}

/// Dedup entries, keeping the last occurrence of each PV name.
pub fn dedup_entries(entries: Vec<RequestEntry>) -> (r: Vec<RequestEntry>)
    ensures
        r@ == keep_last(entries@),
{
    let ghost all = entries@;
    let mut rest = entries;
    let mut seen: Vec<String> = Vec::new();
    let mut rev: Vec<RequestEntry> = Vec::new();
    while rest.len() > 0
        invariant
            rest@.len() <= all.len(),
            rest@ == all.subrange(0, rest@.len() as int),
            string_views(seen@) == names_of(all.subrange(rest@.len() as int, all.len() as int)),
            rev@.reverse() == keep_last(all.subrange(rest@.len() as int, all.len() as int)),
        decreases rest.len(),
    {
        let ghost n = rest@.len();
        let e = rest.pop().unwrap();
        let ghost suffix = all.subrange(n as int, all.len() as int);
        let ghost longer = all.subrange(n - 1, all.len() as int);
        assert(longer.drop_first() =~= suffix);
        assert(longer[0] == e);
        let dup = names_contain(&seen, &e.pv_name);
        let name = e.pv_name.clone();
        if !dup {
            let ghost old_rev = rev@;
            rev.push(e);
            assert(rev@.reverse() =~= seq![e] + old_rev.reverse());
        }
        let ghost old_seen = seen@;
        seen.insert(0, name);
        assert(seen@ =~= seq![name] + old_seen);
        assert(name@ == e.pv_name@);
        assert(string_views(seen@) =~= seq![name@] + string_views(old_seen));
        assert(names_of(longer) =~= seq![e.pv_name@] + names_of(suffix));
        assert(string_views(seen@) =~= names_of(longer));
    }
    let mut r: Vec<RequestEntry> = Vec::new();
    let ghost target = rev@.reverse();
    assert(all.subrange(0, all.len() as int) =~= all);
    while rev.len() > 0
        invariant
            target == r@ + rev@.reverse(),
        decreases rev.len(),
    {
        let ghost old_rev = rev@;
        let x = rev.pop().unwrap();
        let ghost old_r = r@;
        r.push(x);
        assert(old_rev.reverse() =~= seq![x] + rev@.reverse());
        assert(target =~= r@ + rev@.reverse());
    }
    assert(r@ =~= target);
    r
}

// ---------------------------------------------------------------------
// Lines of request files read with include support
// ---------------------------------------------------------------------
/// What one line of a request file does when includes are followed.
#[derive(Debug)]
pub enum RequestLine {
    /// An empty or comment line.
    Skip,
    /// A PV entry.
    Entry(RequestEntry),
    /// A `file` include: the path (macros expanded) and the macros the
    /// included file is read with.
    Include { path: String, macros: MacroContext },
}

/// The text after `file` of a directive line.
pub open spec fn directive_rest(t: Seq<char>) -> Seq<char> {
    trim(t.subrange(4, t.len() as int))
}

/// The macros an included file is read with: the parent's, overridden by
/// the directive's inline macros after those are expanded.
pub open spec fn child_bindings(m: Map<Seq<char>, Seq<char>>, env: Map<Seq<char>, Seq<char>>, inline: Seq<char>) -> Result<Map<Seq<char>, Seq<char>>, Seq<char>> {
    if inline.len() == 0 {
        Ok(m)
    } else {
        match expansion(m, env, inline) {
            Err(k) => Err(k),
            Ok(x) => Ok(m.union_prefer_right(inline_macros(x))),
        }
    }
}

/// Classify line `line_no` of the request file `source`.
pub fn classify_request_line(
    raw_line: &str,
    line_no: usize,
    macros: &MacroContext,
    source: &str,
    env: &NameMap<String>,
) -> (r: Result<RequestLine, AutosaveError>)
    requires
        macros.wf(),
        env.wf(),
    ensures
        ({
            let t = trim(raw_line@);
            let m = macros.bindings();
            let e = str_map(env.map());
            match r {
                Ok(RequestLine::Skip) => skipped_line(t),
                Ok(RequestLine::Entry(entry)) => !skipped_line(t) && !is_file_line(t)
                    && expansion(m, e, t) == Ok::<Seq<char>, Seq<char>>(entry.pv_name@)
                    && entry.model() == (EntryModel {
                        pv_name: entry.pv_name@,
                        source_file: source@,
                        line_no: line_no as int,
                        expanded_from: if entry.pv_name@ != t { Some(t) } else { None },
                    }),
                Ok(RequestLine::Include { path, macros: child }) => !skipped_line(t) && is_file_line(t)
                    && expansion(m, e, file_directive(directive_rest(t)).0) == Ok::<Seq<char>, Seq<char>>(path@)
                    && child.wf()
                    && child_bindings(m, e, file_directive(directive_rest(t)).1) == Ok::<Map<Seq<char>, Seq<char>>, Seq<char>>(child.bindings()),
                Err(AutosaveError::UndefinedMacro { key, source: src, line }) => !skipped_line(t)
                    && src@ == source@ && line == line_no
                    && if is_file_line(t) {
                        expansion(m, e, file_directive(directive_rest(t)).0) == Err::<Seq<char>, Seq<char>>(key@)
                        || (expansion(m, e, file_directive(directive_rest(t)).0) is Ok
                            && child_bindings(m, e, file_directive(directive_rest(t)).1) == Err::<Map<Seq<char>, Seq<char>>, Seq<char>>(key@))
                    } else {
                        expansion(m, e, t) == Err::<Seq<char>, Seq<char>>(key@)
                    },
                Err(_) => false,
            }
        }),
{
    let t = trim_vec(&chars_of(raw_line));
    if t.len() == 0 || t[0] == '#' {
        return Ok(RequestLine::Skip);
    }
    let f1 = prefix_at_str(&t, 0, "file ");
    let f2 = prefix_at_str(&t, 0, "file\t");
    if f1 || f2 {
        proof {
            reveal_strlit("file ");
            reveal_strlit("file\t");
        }
        let rest = trim_vec(&sub_vec(&t, 4, t.len()));
        let (fp, im) = parse_file_directive(string_of_vec(&rest).as_str());
        let path = macros.expand(fp.as_str(), source, line_no, env)?;
        let child = if im.as_str().is_empty() {
            let none: NameMap<String> = NameMap::new();
            let c = macros.with_overrides(&none);
            assert(c.bindings() =~= macros.bindings());
            c
        } else {
            let x = macros.expand(im.as_str(), source, line_no, env)?;
            let overrides = MacroContext::parse_inline(x.as_str());
            macros.with_overrides(&overrides)
        };
        return Ok(RequestLine::Include { path, macros: child });
    }
    let line_s = string_of_vec(&t);
    let expanded = macros.expand(line_s.as_str(), source, line_no, env)?;
    let same = chars_eq(&chars_of(expanded.as_str()), &t);
    let expanded_from = if !same { Some(line_s) } else { None };
    Ok(RequestLine::Entry(RequestEntry {
        pv_name: expanded,
        source_file: string_of_vec(&chars_of(source)),
        line_no,
        expanded_from,
    }))
}

/// Refuse to read a request file nested deeper than `MAX_INCLUDE_DEPTH`.
pub fn check_request_depth(depth: usize) -> (r: Result<(), AutosaveError>)
    ensures
        match r {
            Ok(()) => depth <= MAX_INCLUDE_DEPTH,
            Err(AutosaveError::IncludeDepthExceeded(n)) => depth > MAX_INCLUDE_DEPTH && n == MAX_INCLUDE_DEPTH,
            Err(_) => false,
        },
{
    if depth > MAX_INCLUDE_DEPTH {
        Err(AutosaveError::IncludeDepthExceeded(MAX_INCLUDE_DEPTH))
    } else {
        Ok(())
    }
}

/// Refuse to include a request file that is already being read; the error
/// lists the files being read and the one that closes the cycle.
pub fn check_request_cycle(stack: &Vec<String>, path: &str) -> (r: Result<(), AutosaveError>)
    ensures
        match r {
            Ok(()) => !string_views(stack@).contains(path@),
            Err(AutosaveError::IncludeCycle { chain }) => string_views(stack@).contains(path@)
                && string_views(chain@) == string_views(stack@).push(path@),
            Err(_) => false,
        },
{
    let pv = chars_of(path);
    let ghost sv = string_views(stack@);
    let mut chain: Vec<String> = Vec::new();
    let mut found = false;
    let mut i: usize = 0;
    while i < stack.len()
        invariant
            i <= stack@.len(),
            sv == string_views(stack@),
            pv@ == path@,
            found <==> (exists|k: int| 0 <= k < i && #[trigger] sv[k] == path@),
            string_views(chain@) == sv.subrange(0, i as int),
        decreases stack.len() - i,
    {
        let sc = chars_of(stack[i].as_str());
        assert(sv[i as int] == sc@);
        if chars_eq(&sc, &pv) {
            found = true;
        }
        let ghost before = string_views(chain@);
        let item = stack[i].clone();
        assert(item@ == sv[i as int]);
        chain.push(item);
        assert(string_views(chain@) =~= before.push(sv[i as int]));
        assert(string_views(chain@) =~= sv.subrange(0, i + 1));
        i = i + 1;
    }
    if !found {
        return Ok(());
    }
    let ghost before = string_views(chain@);
    chain.push(string_of_vec(&pv));
    assert(sv.subrange(0, stack@.len() as int) =~= sv);
    assert(string_views(chain@) =~= sv.push(path@));
    Err(AutosaveError::IncludeCycle { chain })
}

} // verus!
