//! IOC shell command lines: argument descriptions and the tokenizer for
//! both the C++ `cmd(arg, ...)` form and the space-separated form.
use vstd::prelude::*;
use crate::name_map::NameMap;
use crate::autosave::macros::str_map;
use crate::number::{int_of, parse_int};
use crate::record::{float_text, is_float_text};
use crate::text::{
    chars_of, find_char, find_from, lemma_find_first, lemma_find_from, lemma_trim_left_no_lead,
    lemma_trim_right_no_trail, push_all, push_str, string_of_vec, string_views, sub_vec, trim,
    trim_left, trim_vec,
};

verus! {

/// Argument type for a command parameter.
#[derive(Debug, Clone, Copy, PartialEq, Eq, Structural)]
pub enum ArgType {
    String,
    Int,
    Double,
}

/// Description of a single command argument.
#[derive(Debug, Clone)]
pub struct ArgDesc {
    pub name: &'static str,
    pub arg_type: ArgType,
    pub optional: bool,
}

/// Result of executing a command.
#[derive(Debug, Clone, Copy, PartialEq, Eq, Structural)]
pub enum CommandOutcome {
    Continue,
    Exit,
}

/// `s[i..]` with each `$(NAME)` and `$(NAME=DEFAULT)` replaced by the
/// variable's value, else by the default, else left as `$(NAME)`; a `$(`
/// without a later `)` is copied.
pub open spec fn env_subst_from(s: Seq<char>, i: int, env: Map<Seq<char>, Seq<char>>) -> Seq<char>
    decreases s.len() - i,
{
    if i < 0 || i >= s.len() {
        Seq::empty()
    } else if s[i] == '$' && i + 1 < s.len() && s[i + 1] == '(' && find_from(s, i + 2, ')') < s.len() {
        let e = find_from(s, i + 2, ')');
        proof {
            lemma_find_from(s, i + 2, ')');
        }
        let expr = s.subrange(i + 2, e);
        let q = find_from(expr, 0, '=');
        let name = expr.subrange(0, q);
        let piece = if env.contains_key(name) {
            env[name]
        } else if q < expr.len() {
            expr.subrange(q + 1, expr.len() as int)
        } else {
            "$("@ + expr + ")"@
        };
        piece + env_subst_from(s, e + 1, env)
    } else {
        seq![s[i]] + env_subst_from(s, i + 1, env)
    }
}

pub open spec fn env_subst(s: Seq<char>, env: Map<Seq<char>, Seq<char>>) -> Seq<char> {
    env_subst_from(s, 0, env)
}

/// Substitute `$(NAME)` references with the values of the environment
/// variables in `env`.
pub fn substitute_env_vars(s: &str, env: &NameMap<String>) -> (r: String)
    requires
        env.wf(),
    ensures
        r@ == env_subst(s@, str_map(env.map())),
{
    let v = chars_of(s);
    let out = subst_env_chars(&v, env);
    string_of_vec(&out)
}

pub fn subst_env_chars(v: &Vec<char>, env: &NameMap<String>) -> (r: Vec<char>)
    requires
        env.wf(),
    ensures
        r@ == env_subst(v@, str_map(env.map())),
{
    let ghost m = str_map(env.map());
    let mut out: Vec<char> = Vec::new();
    let mut i: usize = 0;
    while i < v.len()
        invariant
            i <= v.len(),
            env.wf(),
            m == str_map(env.map()),
            env_subst(v@, m) == out@ + env_subst_from(v@, i as int, m),
        decreases v.len() - i,
    {
        let ghost before = out@;
        let mut handled = false;
        if v[i] == '$' && i + 1 < v.len() && v[i + 1] == '(' {
            let e = find_char(v, i + 2, ')');
            proof {
                lemma_find_from(v@, i + 2, ')');
            }
            if e < v.len() {
                let expr = sub_vec(v, i + 2, e);
                let q = find_char(&expr, 0, '=');
                proof {
                    lemma_find_from(expr@, 0, '=');
                }
                let name = string_of_vec(&sub_vec(&expr, 0, q));
                match env.get(name.as_str()) {
                    Some(val) => {
                        push_all(&mut out, &chars_of(val.as_str()));
                    },
                    None => {
                        if q < expr.len() {
                            push_all(&mut out, &sub_vec(&expr, q + 1, expr.len()));
                        } else {
                            out.push('$');
                            out.push('(');
                            push_all(&mut out, &expr);
                            out.push(')');
                            proof {
                                reveal_strlit("$(");
                                reveal_strlit(")");
                                assert(out@ =~= before + ("$("@ + expr@ + ")"@));
                            }
                        }
                    },
                }
                proof {
                    let piece = out@.subrange(before.len() as int, out@.len() as int);
                    assert(out@ =~= before + piece);
                }
                i = e + 1;
                handled = true;
            }
        }
        if !handled {
            out.push(v[i]);
            i = i + 1;
        }
    }
    out
}

/// The index of the `)` that closes an argument list in `s[i..]`, skipping
/// quoted strings (with `\` escapes) and `$(...)` references; `s.len()`
/// when there is none.
pub open spec fn paren_scan(s: Seq<char>, i: int, q: bool) -> int
    decreases s.len() - i,
{
    if i < 0 || i >= s.len() {
        s.len() as int
    } else if q {
        if s[i] == '\\' {
            if i + 1 < s.len() {
                paren_scan(s, i + 2, q)
            } else {
                s.len() as int
            }
        } else if s[i] == '"' {
            paren_scan(s, i + 1, false)
        } else {
            paren_scan(s, i + 1, true)
        }
    } else if s[i] == '"' {
        paren_scan(s, i + 1, true)
    } else if s[i] == '$' && i + 1 < s.len() && s[i + 1] == '(' && find_from(s, i + 2, ')') < s.len() {
        let e = find_from(s, i + 2, ')');
        proof {
            lemma_find_from(s, i + 2, ')');
        }
        paren_scan(s, e + 1, false)
    } else if s[i] == ')' {
        i
    } else {
        paren_scan(s, i + 1, false)
    }
}

pub proof fn lemma_paren_scan(s: Seq<char>, i: int, q: bool)
    requires
        0 <= i,
    ensures
        0 <= paren_scan(s, i, q) <= s.len(),
    decreases s.len() - i,
{
    if i < s.len() {
        if q {
            if s[i] == '\\' {
                if i + 1 < s.len() {
                    lemma_paren_scan(s, i + 2, q);
                }
            } else if s[i] == '"' {
                lemma_paren_scan(s, i + 1, false);
            } else {
                lemma_paren_scan(s, i + 1, true);
            }
        } else if s[i] == '"' {
            lemma_paren_scan(s, i + 1, true);
        } else if s[i] == '$' && i + 1 < s.len() && s[i + 1] == '(' && find_from(s, i + 2, ')') < s.len() {
            lemma_find_from(s, i + 2, ')');
            lemma_paren_scan(s, find_from(s, i + 2, ')') + 1, false);
        } else if s[i] != ')' {
            lemma_paren_scan(s, i + 1, false);
        }
    }
}

/// Find the closing ')' in `s`, respecting quoted strings and `$(...)`
/// sequences; `s.len()` if there is none.
pub fn find_closing_paren(s: &Vec<char>) -> (r: usize)
    ensures
        r == paren_scan(s@, 0, false),
        r <= s.len(),
{
    let mut q = false;
    let mut i: usize = 0;
    proof {
        lemma_paren_scan(s@, 0, false);
    }
    while i < s.len()
        invariant
            paren_scan(s@, 0, false) == paren_scan(s@, i as int, q),
            0 <= paren_scan(s@, 0, false) <= s@.len(),
        decreases s.len() - i,
    {
        if q {
            if s[i] == '\\' {
                if i + 1 >= s.len() {
                    return s.len();
                }
                i = i + 2;
            } else {
                if s[i] == '"' {
                    q = false;
                }
                i = i + 1;
            }
        } else if s[i] == '"' {
            q = true;
            i = i + 1;
        } else {
            let mut skipped = false;
            if s[i] == '$' && i + 1 < s.len() && s[i + 1] == '(' {
                let e = find_char(s, i + 2, ')');
                proof {
                    lemma_find_from(s@, i + 2, ')');
                }
                if e < s.len() {
                    i = e + 1;
                    skipped = true;
                }
            }
            if !skipped {
                if s[i] == ')' {
                    return i;
                }
                i = i + 1;
            }
        }
    }
    s.len()
}

/// One character of a quoted string with `\"` and `\\` escapes: the text it
/// stands for and how many characters it takes.
pub open spec fn quoted_char(s: Seq<char>, i: int) -> (char, int) {
    if s[i] == '\\' && i + 1 < s.len() && (s[i + 1] == '"' || s[i + 1] == '\\') {
        (s[i + 1], 2)
    } else {
        (s[i], 1)
    }
}

/// The parts of `s[i..]` between unquoted commas, quotes kept and escapes
/// inside quotes resolved, after the parts `parts` and the current `cur`.
pub open spec fn comma_raw(s: Seq<char>, i: int, q: bool, cur: Seq<char>, parts: Seq<Seq<char>>) -> Seq<Seq<char>>
    decreases s.len() - i,
{
    if i < 0 || i >= s.len() {
        parts.push(cur)
    } else if q {
        if s[i] == '"' {
            comma_raw(s, i + 1, false, cur.push('"'), parts)
        } else {
            let (t, n) = quoted_char(s, i);
            comma_raw(s, i + n, true, cur.push(t), parts)
        }
    } else if s[i] == '"' {
        comma_raw(s, i + 1, true, cur.push('"'), parts)
    } else if s[i] == ',' {
        comma_raw(s, i + 1, false, Seq::empty(), parts.push(cur))
    } else {
        comma_raw(s, i + 1, false, cur.push(s[i]), parts)
    }
}

/// `s[i..]` with `\"` and `\\` escapes resolved, after `acc`.
pub open spec fn unescape_from(s: Seq<char>, i: int, acc: Seq<char>) -> Seq<char>
    decreases s.len() - i,
{
    if i < 0 || i >= s.len() {
        acc
    } else {
        let (t, n) = quoted_char(s, i);
        unescape_from(s, i + n, acc.push(t))
    }
}

/// A part as an argument: trimmed, and when wrapped in double quotes,
/// unwrapped with its escapes resolved.
pub open spec fn clean_part(p: Seq<char>) -> Seq<char> {
    let t = trim(p);
    if t.len() >= 2 && t[0] == '"' && t.last() == '"' {
        unescape_from(t.subrange(1, t.len() - 1), 0, Seq::empty())
    } else {
        t
    }
}

/// The arguments of a list of parts: each cleaned, leading empty parts
/// dropped.
pub open spec fn clean_parts(ps: Seq<Seq<char>>) -> Seq<Seq<char>>
    decreases ps.len(),
{
    if ps.len() == 0 {
        Seq::empty()
    } else {
        let prev = clean_parts(ps.drop_last());
        if trim(ps.last()).len() == 0 && prev.len() == 0 {
            prev
        } else {
            prev.push(clean_part(ps.last()))
        }
    }
}

/// The comma-separated arguments of `s`.
pub open spec fn comma_args(s: Seq<char>) -> Seq<Seq<char>> {
    clean_parts(comma_raw(s, 0, false, Seq::empty(), Seq::empty()))
}

fn unescape(s: &Vec<char>) -> (r: Vec<char>)
    ensures
        r@ == unescape_from(s@, 0, Seq::empty()),
{
    let mut acc: Vec<char> = Vec::new();
    let mut i: usize = 0;
    while i < s.len()
        invariant
            i <= s@.len(),
            unescape_from(s@, 0, Seq::empty()) == unescape_from(s@, i as int, acc@),
        decreases s.len() - i,
    {
        if s[i] == '\\' && i + 1 < s.len() && (s[i + 1] == '"' || s[i + 1] == '\\') {
            acc.push(s[i + 1]);
            i = i + 2;
        } else {
            acc.push(s[i]);
            i = i + 1;
        }
    }
    acc
}

/// Split comma-separated arguments, respecting quoted strings; each
/// argument is trimmed and stripped of its outer quotes.
pub fn split_comma_args(s: &Vec<char>) -> (r: Vec<String>)
    ensures
        string_views(r@) == comma_args(s@),
{
    let mut parts: Vec<Vec<char>> = Vec::new();
    let mut cur: Vec<char> = Vec::new();
    let mut q = false;
    let mut i: usize = 0;
    assert(crate::text::views_of(parts@) =~= Seq::<Seq<char>>::empty());
    assert(cur@ =~= Seq::<char>::empty());
    while i < s.len()
        invariant
            i <= s@.len(),
            comma_raw(s@, 0, false, Seq::empty(), Seq::empty()) == comma_raw(s@, i as int, q, cur@, crate::text::views_of(parts@)),
        decreases s.len() - i,
    {
        if q {
            if s[i] == '"' {
                q = false;
                cur.push('"');
                i = i + 1;
            } else if s[i] == '\\' && i + 1 < s.len() && (s[i + 1] == '"' || s[i + 1] == '\\') {
                cur.push(s[i + 1]);
                i = i + 2;
            } else {
                cur.push(s[i]);
                i = i + 1;
            }
        } else if s[i] == '"' {
            q = true;
            cur.push('"');
            i = i + 1;
        } else if s[i] == ',' {
            let ghost pv = crate::text::views_of(parts@);
            parts.push(cur);
            cur = Vec::new();
            assert(crate::text::views_of(parts@) =~= pv.push(parts@.last()@));
            i = i + 1;
        } else {
            cur.push(s[i]);
            i = i + 1;
        }
    }
    let ghost pv = crate::text::views_of(parts@);
    parts.push(cur);
    assert(crate::text::views_of(parts@) =~= pv.push(parts@.last()@));
    let ghost raw = crate::text::views_of(parts@);
    let mut args: Vec<String> = Vec::new();
    let mut k: usize = 0;
    while k < parts.len()
        invariant
            k <= parts@.len(),
            raw == crate::text::views_of(parts@),
            string_views(args@) == clean_parts(raw.subrange(0, k as int)),
        decreases parts.len() - k,
    {
        let t = trim_vec(&parts[k]);
        proof {
            assert(raw.subrange(0, k + 1).drop_last() =~= raw.subrange(0, k as int));
            assert(raw.subrange(0, k + 1).last() == parts@[k as int]@);
        }
        if !(t.len() == 0 && args.len() == 0) {
            let piece = if t.len() >= 2 && t[0] == '"' && t[t.len() - 1] == '"' {
                unescape(&sub_vec(&t, 1, t.len() - 1))
            } else {
                t
            };
            let ghost before = string_views(args@);
            args.push(string_of_vec(&piece));
            assert(string_views(args@) =~= before.push(piece@));
        }
        k = k + 1;
    }
    assert(raw.subrange(0, parts@.len() as int) =~= raw);
    args
}

/// The space-separated words of `s[i..]` (a quoted run may hold blanks),
/// after the words `args` and the current word `cur`.
pub open spec fn space_from(s: Seq<char>, i: int, q: bool, cur: Seq<char>, has: bool, args: Seq<Seq<char>>) -> Seq<Seq<char>>
    decreases s.len() - i,
{
    if i < 0 || i >= s.len() {
        if has {
            args.push(cur)
        } else {
            args
        }
    } else if q {
        if s[i] == '"' {
            space_from(s, i + 1, false, cur, has, args)
        } else {
            let (t, n) = quoted_char(s, i);
            space_from(s, i + n, true, cur.push(t), has, args)
        }
    } else if s[i] == '"' {
        space_from(s, i + 1, true, cur, true, args)
    } else if s[i] == ' ' || s[i] == '\t' {
        if has {
            space_from(s, i + 1, false, Seq::empty(), false, args.push(cur))
        } else {
            space_from(s, i + 1, false, cur, has, args)
        }
    } else {
        space_from(s, i + 1, false, cur.push(s[i]), true, args)
    }
}

pub open spec fn space_args(s: Seq<char>) -> Seq<Seq<char>> {
    space_from(s, 0, false, Seq::empty(), false, Seq::empty())
}

/// Split space/tab separated arguments, respecting quoted strings.
pub fn split_space_args(s: &Vec<char>) -> (r: Vec<String>)
    ensures
        string_views(r@) == space_args(s@),
{
    let mut args: Vec<String> = Vec::new();
    let mut cur: Vec<char> = Vec::new();
    let mut q = false;
    let mut has = false;
    let mut i: usize = 0;
    assert(string_views(args@) =~= Seq::<Seq<char>>::empty());
    assert(cur@ =~= Seq::<char>::empty());
    while i < s.len()
        invariant
            i <= s@.len(),
            space_args(s@) == space_from(s@, i as int, q, cur@, has, string_views(args@)),
        decreases s.len() - i,
    {
        if q {
            if s[i] == '"' {
                q = false;
                i = i + 1;
            } else if s[i] == '\\' && i + 1 < s.len() && (s[i + 1] == '"' || s[i + 1] == '\\') {
                cur.push(s[i + 1]);
                i = i + 2;
            } else {
                cur.push(s[i]);
                i = i + 1;
            }
        } else if s[i] == '"' {
            q = true;
            has = true;
            i = i + 1;
        } else if s[i] == ' ' || s[i] == '\t' {
            if has {
                let ghost before = string_views(args@);
                args.push(string_of_vec(&cur));
                assert(string_views(args@) =~= before.push(cur@));
                cur = Vec::new();
                has = false;
            }
            i = i + 1;
        } else {
            cur.push(s[i]);
            has = true;
            i = i + 1;
        }
    }
    if has {
        let ghost before = string_views(args@);
        args.push(string_of_vec(&cur));
        assert(string_views(args@) =~= before.push(cur@));
    }
    args
}

/// End of the command name in `t[i..]`: the first `(`, space or tab.
pub open spec fn cmd_end_from(t: Seq<char>, i: int) -> int
    decreases t.len() - i,
{
    if i < 0 || i >= t.len() {
        t.len() as int
    } else if t[i] == '(' || t[i] == ' ' || t[i] == '\t' {
        i
    } else {
        cmd_end_from(t, i + 1)
    }
}

pub proof fn lemma_cmd_end_from(t: Seq<char>, i: int)
    requires
        0 <= i <= t.len(),
    ensures
        i <= cmd_end_from(t, i) <= t.len(),
    decreases t.len() - i,
{
    if i < t.len() && !(t[i] == '(' || t[i] == ' ' || t[i] == '\t') {
        lemma_cmd_end_from(t, i + 1);
    }
}

/// Each word with its environment references substituted.
pub open spec fn env_each(v: Seq<Seq<char>>, env: Map<Seq<char>, Seq<char>>) -> Seq<Seq<char>> {
    Seq::new(v.len(), |i: int| env_subst(v[i], env))
}

/// The tokens of a command line: the command name, then its arguments,
/// each with environment references substituted.  `cmd(a, b)` takes the
/// arguments up to the closing `)` as a comma-separated list; otherwise they
/// are separated by blanks.
pub open spec fn line_tokens(line: Seq<char>, env: Map<Seq<char>, Seq<char>>) -> Seq<Seq<char>> {
    let t = trim(line);
    let ce = cmd_end_from(t, 0);
    if t.len() == 0 || ce == 0 {
        Seq::empty()
    } else {
        let head = seq![env_subst(t.subrange(0, ce), env)];
        if ce < t.len() && t[ce] == '(' {
            let rest = t.subrange(ce + 1, t.len() as int);
            let args = rest.subrange(0, paren_scan(rest, 0, false));
            if trim(args).len() == 0 {
                head
            } else {
                head + env_each(comma_args(args), env)
            }
        } else {
            head + env_each(space_args(t.subrange(ce, t.len() as int)), env)
        }
    }
}

proof fn lemma_cmd_end_first(t: Seq<char>, i: int, k: int)
    requires
        0 <= i <= k <= t.len(),
        k == t.len() || t[k] == '(' || t[k] == ' ' || t[k] == '\t',
        forall|n: int| i <= n < k ==> !(#[trigger] t[n] == '(' || t[n] == ' ' || t[n] == '\t'),
    ensures
        cmd_end_from(t, i) == k,
    decreases k - i,
{
    if i < k {
        lemma_cmd_end_first(t, i + 1, k);
    }
}

/// A command line has no tokens exactly when it is blank or its trimmed
/// text starts with `(`; otherwise its first token is the trimmed text up
/// to the first `(`, space or tab, with environment references substituted.
pub proof fn first_token(line: Seq<char>, env: Map<Seq<char>, Seq<char>>, k: int)
    requires
        0 <= k <= trim(line).len(),
        k == trim(line).len() || trim(line)[k] == '(' || trim(line)[k] == ' ' || trim(line)[k] == '\t',
        forall|n: int| 0 <= n < k ==> !(#[trigger] trim(line)[n] == '(' || trim(line)[n] == ' ' || trim(line)[n] == '\t'),
    ensures
        line_tokens(line, env).len() == 0 <==> (trim(line).len() == 0 || trim(line)[0] == '('),
        line_tokens(line, env).len() > 0 ==> line_tokens(line, env)[0] == env_subst(trim(line).subrange(0, k), env),
{
    let t = trim(line);
    lemma_cmd_end_first(t, 0, k);
    lemma_trim_left_no_lead(line);
    lemma_trim_right_no_trail(trim_left(line));
    if t.len() > 0 {
        assert(t[0] == trim_left(line)[0]);
        assert(t[0] != ' ' && t[0] != '\t');
    }
}

fn push_env_each(tokens: &mut Vec<String>, words: &Vec<String>, env: &NameMap<String>)
    requires
        env.wf(),
    ensures
        string_views(final(tokens)@) == string_views(old(tokens)@) + env_each(string_views(words@), str_map(env.map())),
{
    let mut k: usize = 0;
    while k < words.len()
        invariant
            k <= words@.len(),
            env.wf(),
            string_views(tokens@) == string_views(old(tokens)@) + env_each(string_views(words@), str_map(env.map())).subrange(0, k as int),
        decreases words.len() - k,
    {
        let ghost before = string_views(tokens@);
        let w = substitute_env_vars(words[k].as_str(), env);
        tokens.push(w);
        assert(string_views(tokens@) =~= before.push(w@));
        assert(env_each(string_views(words@), str_map(env.map())).subrange(0, k + 1) =~= env_each(string_views(words@), str_map(env.map())).subrange(0, k as int).push(w@));
        k = k + 1;
    }
    assert(env_each(string_views(words@), str_map(env.map())).subrange(0, words@.len() as int) =~= env_each(string_views(words@), str_map(env.map())));
}

/// Tokenize a command line supporting both C++ EPICS and space-separated
/// syntax.  `$(VAR)` references are resolved from the environment `env`.
pub fn tokenize(line: &str, env: &NameMap<String>) -> (r: Vec<String>)
    requires
        env.wf(),
    ensures
        string_views(r@) == line_tokens(line@, str_map(env.map())),
{
    let t = trim_vec(&chars_of(line));
    let mut ce: usize = 0;
    while ce < t.len() && !(t[ce] == '(' || t[ce] == ' ' || t[ce] == '\t')
        invariant
            ce <= t@.len(),
            cmd_end_from(t@, 0) == cmd_end_from(t@, ce as int),
        decreases t.len() - ce,
    {
        ce = ce + 1;
    }
    proof {
        lemma_cmd_end_from(t@, ce as int);
    }
    let mut tokens: Vec<String> = Vec::new();
    if t.len() == 0 || ce == 0 {
        assert(string_views(tokens@) =~= Seq::<Seq<char>>::empty());
        return tokens;
    }
    let cmd = subst_env_chars(&sub_vec(&t, 0, ce), env);
    tokens.push(string_of_vec(&cmd));
    let ghost head = string_views(tokens@);
    assert(head =~= seq![env_subst(t@.subrange(0, ce as int), str_map(env.map()))]);
    if ce < t.len() && t[ce] == '(' {
        let rest = sub_vec(&t, ce + 1, t.len());
        let pe = find_closing_paren(&rest);
        let args = sub_vec(&rest, 0, pe);
        let targs = trim_vec(&args);
        if targs.len() > 0 {
            let words = split_comma_args(&args);
            push_env_each(&mut tokens, &words, env);
        }
    } else {
        let words = split_space_args(&sub_vec(&t, ce, t.len()));
        push_env_each(&mut tokens, &words, env);
    }
    tokens
}

// ---------------------------------------------------------------------
// Arguments
// ---------------------------------------------------------------------
/// A command argument read by its description. A number argument keeps
/// its text, which reads as an `f64`; the shell converts it.
#[derive(Debug, Clone, PartialEq)]
pub enum ParsedArg {
    Text(String),
    Int(i64),
    Number(String),
    Missing,
}

/// What an argument holds.
pub enum ArgModel {
    Text(Seq<char>),
    Int(int),
    Number(Seq<char>),
    Missing,
}

impl ParsedArg {
    pub open spec fn model(&self) -> ArgModel {
        match self {
            ParsedArg::Text(s) => ArgModel::Text(s@),
            ParsedArg::Int(v) => ArgModel::Int(*v as int),
            ParsedArg::Number(s) => ArgModel::Number(s@),
            ParsedArg::Missing => ArgModel::Missing,
        }
    }
}

pub open spec fn int_arg_error(name: Seq<char>, token: Seq<char>) -> Seq<char> {
    "argument '"@ + name + "': expected integer, got '"@ + token + "'"@
}

pub open spec fn number_arg_error(name: Seq<char>, token: Seq<char>) -> Seq<char> {
    "argument '"@ + name + "': expected number, got '"@ + token + "'"@
}

pub open spec fn missing_arg_error(name: Seq<char>) -> Seq<char> {
    "missing required argument '"@ + name + "'"@
}

/// The argument that description `d` reads from the `i`-th token.
pub open spec fn arg_at(tokens: Seq<Seq<char>>, d: ArgDesc, i: int) -> Result<ArgModel, Seq<char>> {
    if i < tokens.len() {
        let t = tokens[i];
        match d.arg_type {
            ArgType::String => Ok(ArgModel::Text(t)),
            ArgType::Int => match int_of(t, true, i64::MIN as int, i64::MAX as int) {
                Some(v) => Ok(ArgModel::Int(v)),
                None => Err(int_arg_error(d.name@, t)),
            },
            ArgType::Double => if is_float_text(t) {
                Ok(ArgModel::Number(t))
            } else {
                Err(number_arg_error(d.name@, t))
            },
        }
    } else if d.optional {
        Ok(ArgModel::Missing)
    } else {
        Err(missing_arg_error(d.name@))
    }
}

/// The arguments of descriptions `descs[i..]` after `acc`, or the first
/// error.
pub open spec fn args_from(tokens: Seq<Seq<char>>, descs: Seq<ArgDesc>, i: int, acc: Seq<ArgModel>) -> Result<Seq<ArgModel>, Seq<char>>
    decreases descs.len() - i,
{
    if i < 0 || i >= descs.len() {
        Ok(acc)
    } else {
        match arg_at(tokens, descs[i], i) {
            Ok(a) => args_from(tokens, descs, i + 1, acc.push(a)),
            Err(e) => Err(e),
        }
    }
}

pub open spec fn arg_models(v: Seq<ParsedArg>) -> Seq<ArgModel> {
    Seq::new(v.len(), |i: int| v[i].model())
}

fn quoted_error(lead: &str, name: &str, mid: &str, token: &str) -> (r: String)
    ensures
        r@ == lead@ + name@ + mid@ + token@ + "'"@,
{
    let mut v: Vec<char> = Vec::new();
    push_str(&mut v, lead);
    push_str(&mut v, name);
    push_str(&mut v, mid);
    push_str(&mut v, token);
    push_str(&mut v, "'");
    string_of_vec(&v)
}

/// Reads the arguments of a command from its tokens: one per description,
/// in order. A missing token is `Missing` for an optional argument and an
/// error otherwise; an integer or number token that does not read as one
/// is an error.
pub fn parse_args(tokens: &[String], descs: &[ArgDesc]) -> (r: Result<Vec<ParsedArg>, String>)
    ensures
        match r {
            Ok(v) => args_from(string_views(tokens@), descs@, 0, seq![]) == Ok::<Seq<ArgModel>, Seq<char>>(arg_models(v@)),
            Err(e) => args_from(string_views(tokens@), descs@, 0, seq![]) == Err::<Seq<ArgModel>, Seq<char>>(e@),
        },
{
    let ghost ts = string_views(tokens@);
    let mut result: Vec<ParsedArg> = Vec::new();
    assert(arg_models(result@) =~= Seq::<ArgModel>::empty());
    let mut i: usize = 0;
    while i < descs.len()
        invariant
            i <= descs@.len(),
            ts == string_views(tokens@),
            args_from(ts, descs@, 0, seq![]) == args_from(ts, descs@, i as int, arg_models(result@)),
        decreases descs.len() - i,
    {
        let desc = &descs[i];
        let ghost before = arg_models(result@);
        if i < tokens.len() {
            let token = &tokens[i];
            assert(ts[i as int] == token@);
            let val = match desc.arg_type {
                ArgType::String => ParsedArg::Text(token.clone()),
                ArgType::Int => {
                    let tv = chars_of(token.as_str());
                    assert(tv@.subrange(0, tv@.len() as int) =~= tv@);
                    match parse_int(&tv, 0, tv.len(), true, i64::MIN, i64::MAX) {
                        Some(n) => ParsedArg::Int(n),
                        None => {
                            return Err(quoted_error("argument '", desc.name, "': expected integer, got '", token.as_str()));
                        },
                    }
                },
                ArgType::Double => {
                    let tv = chars_of(token.as_str());
                    if float_text(&tv) {
                        ParsedArg::Number(token.clone())
                    } else {
                        return Err(quoted_error("argument '", desc.name, "': expected number, got '", token.as_str()));
                    }
                },
            };
            result.push(val);
        } else if desc.optional {
            result.push(ParsedArg::Missing);
        } else {
            let mut v: Vec<char> = Vec::new();
            push_str(&mut v, "missing required argument '");
            push_str(&mut v, desc.name);
            push_str(&mut v, "'");
            return Err(string_of_vec(&v));
        }
        assert(arg_models(result@) =~= before.push(result@.last().model()));
        i = i + 1;
    }
    Ok(result)
}


/// Text without `$` is left as it is.
proof fn lemma_subst_plain(s: Seq<char>, i: int, env: Map<Seq<char>, Seq<char>>)
    requires
        0 <= i <= s.len(),
        forall|k: int| i <= k < s.len() ==> #[trigger] s[k] != '$',
    ensures
        env_subst_from(s, i, env) == s.subrange(i, s.len() as int),
    decreases s.len() - i,
{
    if i < s.len() {
        lemma_subst_plain(s, i + 1, env);
        assert(seq![s[i]] + s.subrange(i + 1, s.len() as int) =~= s.subrange(i, s.len() as int));
    } else {
        assert(s.subrange(i, s.len() as int) =~= Seq::<char>::empty());
    }
}

/// `$(NAME=DEFAULT)` is replaced by the value of `NAME` when it is set in
/// the environment, and by `DEFAULT` only when it is unset; text without
/// `$` after it is kept.
pub proof fn env_default_only_when_unset(name: Seq<char>, dflt: Seq<char>, t: Seq<char>, env: Map<Seq<char>, Seq<char>>)
    requires
        forall|k: int| 0 <= k < name.len() ==> #[trigger] name[k] != '=' && name[k] != ')',
        forall|k: int| 0 <= k < dflt.len() ==> #[trigger] dflt[k] != ')',
        forall|k: int| 0 <= k < t.len() ==> #[trigger] t[k] != '$',
    ensures
        env_subst(seq!['$', '('] + name + seq!['='] + dflt + seq![')'] + t, env)
            == (if env.contains_key(name) { env[name] } else { dflt }) + t,
{
    let s = seq!['$', '('] + name + seq!['='] + dflt + seq![')'] + t;
    let n = name.len() as int;
    let e = 2 + n + 1 + dflt.len();
    assert forall|x: int| 2 <= x < e implies s[x] != ')' by {
        if x < 2 + n {
            assert(s[x] == name[x - 2]);
        } else if x > 2 + n {
            assert(s[x] == dflt[x - 3 - n]);
        }
    }
    lemma_find_first(s, 2, e, ')');
    let expr = s.subrange(2, e);
    assert(expr =~= name + seq!['='] + dflt);
    assert forall|x: int| 0 <= x < n implies expr[x] != '=' by {
        assert(expr[x] == name[x]);
    }
    lemma_find_first(expr, 0, n, '=');
    assert(expr.subrange(0, n) =~= name);
    assert(expr.subrange(n + 1, expr.len() as int) =~= dflt);
    assert forall|k: int| e + 1 <= k < s.len() implies #[trigger] s[k] != '$' by {
        assert(s[k] == t[k - e - 1]);
    }
    lemma_subst_plain(s, e + 1, env);
    assert(s.subrange(e + 1, s.len() as int) =~= t);
}

/// `$(NAME)` is replaced by the value of `NAME` when it is set, and kept
/// as written when it is not.
pub proof fn env_reference_without_default(name: Seq<char>, t: Seq<char>, env: Map<Seq<char>, Seq<char>>)
    requires
        forall|k: int| 0 <= k < name.len() ==> #[trigger] name[k] != '=' && name[k] != ')',
        forall|k: int| 0 <= k < t.len() ==> #[trigger] t[k] != '$',
    ensures
        env_subst(seq!['$', '('] + name + seq![')'] + t, env)
            == (if env.contains_key(name) { env[name] } else { seq!['$', '('] + name + seq![')'] }) + t,
{
    reveal_strlit("$(");
    reveal_strlit(")");
    let s = seq!['$', '('] + name + seq![')'] + t;
    let n = name.len() as int;
    let e = 2 + n;
    assert forall|x: int| 2 <= x < e implies s[x] != ')' by {
        assert(s[x] == name[x - 2]);
    }
    lemma_find_first(s, 2, e, ')');
    let expr = s.subrange(2, e);
    assert(expr =~= name);
    lemma_find_first(expr, 0, n, '=');
    assert(expr.subrange(0, n) =~= name);
    assert forall|k: int| e + 1 <= k < s.len() implies #[trigger] s[k] != '$' by {
        assert(s[k] == t[k - e - 1]);
    }
    lemma_subst_plain(s, e + 1, env);
    assert(s.subrange(e + 1, s.len() as int) =~= t);
    assert("$("@ + expr + ")"@ =~= seq!['$', '('] + name + seq![')']);
}

} // verus!
