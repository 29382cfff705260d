//! Macro expansion for request files: `$(KEY)`, `${KEY}`, `$(KEY=default)`
//! and `$$`.
use vstd::prelude::*;
use crate::autosave::error::AutosaveError;
use crate::name_map::NameMap;
use crate::text::{
    lemma_find_first, lemma_find_from_skip, chars_of, find_char, find_from, lemma_find_from, push_all, string_of_vec, sub_vec, trim,
    trim_bounds, trim_vec,
};

verus! {

/// Macro expansion context for `$(KEY)` and `${KEY}` patterns.
#[derive(Debug, Clone)]
pub struct MacroContext {
    macros: NameMap<String>,
}

/// A table of names to string values, seen as a map of character sequences.
pub open spec fn str_map(m: Map<Seq<char>, String>) -> Map<Seq<char>, Seq<char>> {
    m.map_values(|v: String| v@)
}

/// The fields of `s[start..]` separated by `c` (`str::split`).
pub open spec fn split_from(s: Seq<char>, start: int, c: char) -> Seq<Seq<char>>
    decreases s.len() - start,
{
    if start < 0 || start > s.len() {
        seq![]
    } else {
        let e = find_from(s, start, c);
        proof {
            lemma_find_from(s, start, c);
        }
        if e >= s.len() {
            seq![s.subrange(start, s.len() as int)]
        } else {
            seq![s.subrange(start, e)] + split_from(s, e + 1, c)
        }
    }
}

/// One `KEY=VALUE` item of an inline macro list, applied to `m`.
pub open spec fn apply_pair(m: Map<Seq<char>, Seq<char>>, f: Seq<char>) -> Map<Seq<char>, Seq<char>> {
    let p = trim(f);
    let eq = find_from(p, 0, '=');
    if eq < p.len() {
        let k = trim(p.subrange(0, eq));
        if k.len() > 0 {
            m.insert(k, trim(p.subrange(eq + 1, p.len() as int)))
        } else {
            m
        }
    } else {
        m
    }
}

/// The bindings of a list of `KEY=VALUE` items, later items winning.
pub open spec fn pairs_map(fields: Seq<Seq<char>>) -> Map<Seq<char>, Seq<char>>
    decreases fields.len(),
{
    if fields.len() == 0 {
        Map::empty()
    } else {
        apply_pair(pairs_map(fields.drop_last()), fields.last())
    }
}

/// The bindings written inline as `"P=IOC:,M=m1"`.
pub open spec fn inline_macros(s: Seq<char>) -> Map<Seq<char>, Seq<char>> {
    if trim(s).len() == 0 {
        Map::empty()
    } else {
        pairs_map(split_from(s, 0, ','))
    }
}

/// Index of the delimiter that closes a group opened before `j` at nesting
/// `depth`, or `s.len()` when it is never closed.
pub open spec fn match_close(s: Seq<char>, j: int, open: char, close: char, depth: nat) -> int
    decreases s.len() - j,
{
    if j < 0 || j >= s.len() {
        s.len() as int
    } else if s[j] == open {
        match_close(s, j + 1, open, close, depth + 1)
    } else if s[j] == close {
        if depth <= 1 {
            j
        } else {
            match_close(s, j + 1, open, close, (depth - 1) as nat)
        }
    } else {
        match_close(s, j + 1, open, close, depth)
    }
}

pub proof fn lemma_match_close(s: Seq<char>, j: int, open: char, close: char, depth: nat)
    requires
        0 <= j <= s.len(),
    ensures
        j <= match_close(s, j, open, close, depth) <= s.len(),
    decreases s.len() - j,
{
    if j < s.len() {
        if s[j] == open {
            lemma_match_close(s, j + 1, open, close, depth + 1);
        } else if s[j] == close {
            if depth > 1 {
                lemma_match_close(s, j + 1, open, close, (depth - 1) as nat);
            }
        } else {
            lemma_match_close(s, j + 1, open, close, depth);
        }
    }
}

/// The text of `$(KEY)` content `inner` once resolved, or `None` when the
/// key is bound nowhere and there is no default.
pub open spec fn resolve_macro(
    macros: Map<Seq<char>, Seq<char>>,
    env: Map<Seq<char>, Seq<char>>,
    inner: Seq<char>,
) -> Option<Seq<char>> {
    let eq = find_from(inner, 0, '=');
    let key = inner.subrange(0, eq);
    if macros.contains_key(key) {
        Some(macros[key])
    } else if env.contains_key(key) {
        Some(env[key])
    } else if eq < inner.len() {
        Some(inner.subrange(eq + 1, inner.len() as int))
    } else {
        None
    }
}

/// The key named by `$(KEY)` content `inner`.
pub open spec fn macro_key(inner: Seq<char>) -> Seq<char> {
    inner.subrange(0, find_from(inner, 0, '='))
}

/// Expansion of `s[i..]` appended to `out`: `Ok` with the text, or `Err`
/// with the first key that is undefined and has no default.
pub open spec fn expand_from(
    macros: Map<Seq<char>, Seq<char>>,
    env: Map<Seq<char>, Seq<char>>,
    s: Seq<char>,
    i: int,
    out: Seq<char>,
) -> Result<Seq<char>, Seq<char>>
    decreases s.len() - i,
{
    if i < 0 || i >= s.len() {
        Ok(out)
    } else if s[i] == '$' && i + 1 < s.len() {
        if s[i + 1] == '$' {
            expand_from(macros, env, s, i + 2, out.push('$'))
        } else if s[i + 1] == '(' || s[i + 1] == '{' {
            let close = if s[i + 1] == '(' { ')' } else { '}' };
            let j = match_close(s, i + 2, s[i + 1], close, 1);
            proof {
                lemma_match_close(s, i + 2, s[i + 1], close, 1);
            }
            if j >= s.len() {
                expand_from(macros, env, s, i + 1, out.push('$'))
            } else {
                let inner = s.subrange(i + 2, j);
                match resolve_macro(macros, env, inner) {
                    Some(v) => expand_from(macros, env, s, j + 1, out + v),
                    None => Err(macro_key(inner)),
                }
            }
        } else {
            expand_from(macros, env, s, i + 1, out.push('$'))
        }
    } else {
        expand_from(macros, env, s, i + 1, out.push(s[i]))
    }
}

pub open spec fn expansion(
    macros: Map<Seq<char>, Seq<char>>,
    env: Map<Seq<char>, Seq<char>>,
    s: Seq<char>,
) -> Result<Seq<char>, Seq<char>> {
    expand_from(macros, env, s, 0, seq![])
}

/// Index just past the delimiter that closes the group opened at `start`.
fn find_match_close(s: &Vec<char>, start: usize, open: char, close: char) -> (r: usize)
    requires
        start <= s.len(),
    ensures
        r == match_close(s@, start as int, open, close, 1),
        start <= r <= s.len(),
{
    let mut depth: u128 = 1;
    let mut j: usize = start;
    proof {
        lemma_match_close(s@, start as int, open, close, 1);
    }
    while j < s.len()
        invariant
            start <= j <= s.len(),
            1 <= depth <= j - start + 1,
            match_close(s@, start as int, open, close, 1) == match_close(s@, j as int, open, close, depth as nat),
        decreases s.len() - j,
    {
        if s[j] == open {
            depth = depth + 1;
        } else if s[j] == close {
            if depth <= 1 {
                return j;
            }
            depth = depth - 1;
        }
        j = j + 1;
    }
    j
}

impl MacroContext {
    pub closed spec fn wf(&self) -> bool {
        self.macros.wf()
    }

    /// The bindings of this context.
    pub closed spec fn bindings(&self) -> Map<Seq<char>, Seq<char>> {
        str_map(self.macros.map())
    }

    pub fn new() -> (r: Self)
        ensures
            r.wf(),
            r.bindings() == Map::<Seq<char>, Seq<char>>::empty(),
    {
        let r = MacroContext { macros: NameMap::new() };
        assert(r.bindings() =~= Map::<Seq<char>, Seq<char>>::empty());
        r
    }

    pub fn from_map(macros: NameMap<String>) -> (r: Self)
        requires
            macros.wf(),
        ensures
            r.wf(),
            r.bindings() == str_map(macros.map()),
    {
        Self { macros }
    }

    /// Parse inline macro definitions like `"P=IOC:,M=m1"`.
    pub fn parse_inline(s: &str) -> (r: NameMap<String>)
        ensures
            r.wf(),
            str_map(r.map()) == inline_macros(s@),
    {
        let v = chars_of(s);
        let mut map: NameMap<String> = NameMap::new();
        let t = trim_vec(&v);
        if t.len() == 0 {
            assert(str_map(map.map()) =~= Map::<Seq<char>, Seq<char>>::empty());
            return map;
        }
        let mut start: usize = 0;
        let ghost mut done: Seq<Seq<char>> = seq![];
        assert(str_map(map.map()) =~= pairs_map(done));
        loop
            invariant
                start <= v.len(),
                map.wf(),
                v@ == s@,
                trim(v@).len() > 0,
                split_from(v@, 0, ',') == done + split_from(v@, start as int, ','),
                str_map(map.map()) == pairs_map(done),
            decreases v.len() - start,
        {
            let e = find_char(&v, start, ',');
            proof {
                lemma_find_from(v@, start as int, ',');
            }
            let ghost field = v@.subrange(start as int, e as int);
            let (a, b) = trim_bounds(&v, start, e);
            let eq = find_char(&v, a, '=');
            proof {
                lemma_find_from(v@, a as int, '=');
                let p = v@.subrange(a as int, b as int);
                assert(p == trim(field));
                lemma_find_shift(v@, a as int, b as int, '=');
            }
            if eq < b {
                let (ka, kb) = trim_bounds(&v, a, eq);
                let (va, vb) = trim_bounds(&v, eq + 1, b);
                proof {
                    let p = v@.subrange(a as int, b as int);
                    assert(p.subrange(0, eq - a) =~= v@.subrange(a as int, eq as int));
                    assert(p.subrange(eq - a + 1, p.len() as int) =~= v@.subrange(eq + 1, b as int));
                }
                if ka < kb {
                    let key = string_of_vec(&sub_vec(&v, ka, kb));
                    let val = string_of_vec(&sub_vec(&v, va, vb));
                    let ghost before = map.map();
                    map.insert(key, val);
                    proof {
                        assert(str_map(map.map()) =~= str_map(before).insert(
                            v@.subrange(ka as int, kb as int),
                            v@.subrange(va as int, vb as int),
                        ));
                    }
                }
            }
            proof {
                assert(pairs_map(done.push(field)) == apply_pair(pairs_map(done), field)) by {
                    assert(done.push(field).drop_last() =~= done);
                }
            }
            if e >= v.len() {
                proof {
                    assert(split_from(v@, start as int, ',') =~= seq![field]);
                    done = done.push(field);
                    assert(split_from(v@, 0, ',') =~= done);
                }
                return map;
            }
            proof {
                assert(split_from(v@, start as int, ',') =~= seq![field] + split_from(v@, e + 1, ','));
                assert(done + split_from(v@, start as int, ',') =~= done.push(field) + split_from(v@, e + 1, ','));
                done = done.push(field);
            }
            start = e + 1;
        }
    }

    /// Create a child context by merging additional macros (child overrides parent).
    pub fn with_overrides(&self, overrides: &NameMap<String>) -> (r: Self)
        requires
            self.wf(),
            overrides.wf(),
        ensures
            r.wf(),
            r.bindings() == self.bindings().union_prefer_right(str_map(overrides.map())),
    {
        let mut merged = self.macros.duplicate();
        merged.extend_from(overrides);
        let r = MacroContext { macros: merged };
        assert(r.bindings() =~= self.bindings().union_prefer_right(str_map(overrides.map())));
        r
    }

    /// Expand all `$(KEY)`, `${KEY}`, and `$(KEY=default)` patterns in
    /// `input`; `$$` is a literal `$`. A key bound nowhere is looked up in
    /// the process environment `env` before its default is used. An
    /// undefined macro without a default is an error naming the key, the
    /// source and the line.
    pub fn expand(&self, input: &str, source: &str, line: usize, env: &NameMap<String>) -> (r: Result<String, AutosaveError>)
        requires
            self.wf(),
            env.wf(),
        ensures
            match r {
                Ok(t) => expansion(self.bindings(), str_map(env.map()), input@) == Ok::<Seq<char>, Seq<char>>(t@),
                Err(AutosaveError::UndefinedMacro { key, source: src, line: l }) =>
                    expansion(self.bindings(), str_map(env.map()), input@) == Err::<Seq<char>, Seq<char>>(key@)
                    && src@ == source@ && l == line,
                Err(_) => false,
            },
    {
        let s = chars_of(input);
        let ghost m = self.bindings();
        let ghost e = str_map(env.map());
        let mut out: Vec<char> = Vec::new();
        let mut i: usize = 0;
        while i < s.len()
            invariant
                i <= s.len(),
                s@ == input@,
                self.wf(),
                env.wf(),
                m == self.bindings(),
                e == str_map(env.map()),
                expansion(m, e, s@) == expand_from(m, e, s@, i as int, out@),
            decreases s.len() - i,
        {
            if s[i] == '$' && i + 1 < s.len() {
                let c1 = s[i + 1];
                if c1 == '$' {
                    out.push('$');
                    i = i + 2;
                } else if c1 == '(' || c1 == '{' {
                    let close = if c1 == '(' {
                        ')'
                    } else {
                        '}'
                    };
                    let j = find_match_close(&s, i + 2, c1, close);
                    if j >= s.len() {
                        out.push('$');
                        i = i + 1;
                    } else {
                        let inner = sub_vec(&s, i + 2, j);
                        let eq = find_char(&inner, 0, '=');
                        proof {
                            lemma_find_from(inner@, 0, '=');
                        }
                        let key = sub_vec(&inner, 0, eq);
                        let key_s = string_of_vec(&key);
                        match self.macros.get_chars(&key) {
                            Some(val) => {
                                let vv = chars_of(val.as_str());
                                push_all(&mut out, &vv);
                            },
                            None => match env.get_chars(&key) {
                                Some(val) => {
                                    let vv = chars_of(val.as_str());
                                    push_all(&mut out, &vv);
                                },
                                None => {
                                    if eq < inner.len() {
                                        let d = sub_vec(&inner, eq + 1, inner.len());
                                        push_all(&mut out, &d);
                                    } else {
                                        return Err(
                                            AutosaveError::UndefinedMacro {
                                                key: key_s,
                                                source: string_of_vec(&chars_of(source)),
                                                line,
                                            },
                                        );
                                    }
                                },
                            },
                        }
                        i = j + 1;
                    }
                } else {
                    out.push('$');
                    i = i + 1;
                }
            } else {
                out.push(s[i]);
                i = i + 1;
            }
        }
        Ok(string_of_vec(&out))
    }

    pub fn get(&self, key: &str) -> (r: Option<&str>)
        requires
            self.wf(),
        ensures
            match r {
                Some(v) => self.bindings().contains_key(key@) && v@ == self.bindings()[key@],
                None => !self.bindings().contains_key(key@),
            },
    {
        match self.macros.get(key) {
            Some(v) => Some(v.as_str()),
            None => None,
        }
    }
}

/// Searching `s[a..b]` from `a` is searching its copy from 0.
pub proof fn lemma_find_shift(s: Seq<char>, a: int, b: int, c: char)
    requires
        0 <= a <= b <= s.len(),
    ensures
        find_from(s, a, c) < b ==> find_from(s.subrange(a, b), 0, c) == find_from(s, a, c) - a,
        find_from(s, a, c) >= b ==> find_from(s.subrange(a, b), 0, c) == b - a,
{
    lemma_find_shift_from(s, a, b, c, a);
}

proof fn lemma_find_shift_from(s: Seq<char>, a: int, b: int, c: char, k: int)
    requires
        0 <= a <= k <= b <= s.len(),
        forall|m: int| a <= m < k ==> s[m] != c,
    ensures
        find_from(s, a, c) < b ==> find_from(s.subrange(a, b), k - a, c) == find_from(s, a, c) - a,
        find_from(s, a, c) >= b ==> find_from(s.subrange(a, b), k - a, c) == b - a,
    decreases b - k,
{
    lemma_find_from(s, a, c);
    lemma_find_from_skip(s, a, k, c);
    if k < b {
        if s[k] == c {
        } else {
            lemma_find_shift_from(s, a, b, c, k + 1);
        }
    }
}


/// A group with neither delimiter inside closes at the first closing one.
proof fn lemma_close_plain(s: Seq<char>, x: int, e: int, open: char, close: char)
    requires
        0 <= x <= e < s.len(),
        open != close,
        s[e] == close,
        forall|k: int| x <= k < e ==> #[trigger] s[k] != open && s[k] != close,
    ensures
        match_close(s, x, open, close, 1) == e,
    decreases e - x,
{
    if x < e {
        lemma_close_plain(s, x + 1, e, open, close);
    }
}

/// Text without `$` is copied as it is.
proof fn lemma_expand_plain(m: Map<Seq<char>, Seq<char>>, env: Map<Seq<char>, Seq<char>>, s: Seq<char>, i: int, out: Seq<char>)
    requires
        0 <= i <= s.len(),
        forall|k: int| i <= k < s.len() ==> #[trigger] s[k] != '$',
    ensures
        expand_from(m, env, s, i, out) == Ok::<Seq<char>, Seq<char>>(out + s.subrange(i, s.len() as int)),
    decreases s.len() - i,
{
    if i < s.len() {
        lemma_expand_plain(m, env, s, i + 1, out.push(s[i]));
        assert(out.push(s[i]) + s.subrange(i + 1, s.len() as int) =~= out + s.subrange(i, s.len() as int));
    } else {
        assert(out + s.subrange(i, s.len() as int) =~= out);
    }
}

/// The opening and closing delimiters of a reference: `$(..)`, or `${..}`
/// when `brace`.
pub open spec fn delims(brace: bool) -> (char, char) {
    if brace { ('{', '}') } else { ('(', ')') }
}

/// `$(KEY=DEFAULT)` (or `${KEY=DEFAULT}`) expands to the macro's value
/// when `KEY` is a macro, else to the environment's value when it is set
/// there, and to `DEFAULT` only when `KEY` is bound in neither; text
/// without `$` after it is kept.
pub proof fn macro_default_only_when_unbound(
    m: Map<Seq<char>, Seq<char>>,
    env: Map<Seq<char>, Seq<char>>,
    brace: bool,
    key: Seq<char>,
    dflt: Seq<char>,
    t: Seq<char>,
)
    requires
        forall|k: int| 0 <= k < key.len() ==> #[trigger] key[k] != '=' && key[k] != delims(brace).0 && key[k] != delims(brace).1,
        forall|k: int| 0 <= k < dflt.len() ==> #[trigger] dflt[k] != delims(brace).0 && dflt[k] != delims(brace).1,
        forall|k: int| 0 <= k < t.len() ==> #[trigger] t[k] != '$',
    ensures
        expansion(m, env, seq!['$', delims(brace).0] + key + seq!['='] + dflt + seq![delims(brace).1] + t)
            == Ok::<Seq<char>, Seq<char>>(
            (if m.contains_key(key) { m[key] } else if env.contains_key(key) { env[key] } else { dflt }) + t),
{
    let (o, c) = delims(brace);
    let s = seq!['$', o] + key + seq!['='] + dflt + seq![c] + t;
    let n = key.len() as int;
    let e = 2 + n + 1 + dflt.len();
    assert forall|x: int| 2 <= x < e implies #[trigger] s[x] != o && s[x] != c by {
        if x < 2 + n {
            assert(s[x] == key[x - 2]);
        } else if x > 2 + n {
            assert(s[x] == dflt[x - 3 - n]);
        }
    }
    lemma_close_plain(s, 2, e, o, c);
    let inner = s.subrange(2, e);
    assert(inner =~= key + seq!['='] + dflt);
    assert forall|x: int| 0 <= x < n implies inner[x] != '=' by {
        assert(inner[x] == key[x]);
    }
    lemma_find_first(inner, 0, n, '=');
    assert(inner.subrange(0, n) =~= key);
    assert(inner.subrange(n + 1, inner.len() as int) =~= dflt);
    let v = if m.contains_key(key) { m[key] } else if env.contains_key(key) { env[key] } else { dflt };
    assert(resolve_macro(m, env, inner) == Some(v));
    assert forall|k: int| e + 1 <= k < s.len() implies #[trigger] s[k] != '$' by {
        assert(s[k] == t[k - e - 1]);
    }
    lemma_expand_plain(m, env, s, e + 1, seq![] + v);
    assert(s.subrange(e + 1, s.len() as int) =~= t);
    assert(seq![] + v + t =~= v + t);
}

/// `$(KEY)` (or `${KEY}`) expands to the macro's value, else to the
/// environment's, and is an error naming `KEY` when it is bound in
/// neither.
pub proof fn macro_without_default(
    m: Map<Seq<char>, Seq<char>>,
    env: Map<Seq<char>, Seq<char>>,
    brace: bool,
    key: Seq<char>,
    t: Seq<char>,
)
    requires
        forall|k: int| 0 <= k < key.len() ==> #[trigger] key[k] != '=' && key[k] != delims(brace).0 && key[k] != delims(brace).1,
        forall|k: int| 0 <= k < t.len() ==> #[trigger] t[k] != '$',
    ensures
        expansion(m, env, seq!['$', delims(brace).0] + key + seq![delims(brace).1] + t) == (if m.contains_key(key) {
            Ok::<Seq<char>, Seq<char>>(m[key] + t)
        } else if env.contains_key(key) {
            Ok::<Seq<char>, Seq<char>>(env[key] + t)
        } else {
            Err::<Seq<char>, Seq<char>>(key)
        }),
{
    let (o, c) = delims(brace);
    let s = seq!['$', o] + key + seq![c] + t;
    let n = key.len() as int;
    let e = 2 + n;
    assert forall|x: int| 2 <= x < e implies #[trigger] s[x] != o && s[x] != c by {
        assert(s[x] == key[x - 2]);
    }
    lemma_close_plain(s, 2, e, o, c);
    let inner = s.subrange(2, e);
    assert(inner =~= key);
    lemma_find_first(inner, 0, n, '=');
    assert(inner.subrange(0, n) =~= key);
    assert forall|k: int| e + 1 <= k < s.len() implies #[trigger] s[k] != '$' by {
        assert(s[k] == t[k - e - 1]);
    }
    if m.contains_key(key) || env.contains_key(key) {
        let v = if m.contains_key(key) { m[key] } else { env[key] };
        lemma_expand_plain(m, env, s, e + 1, seq![] + v);
        assert(s.subrange(e + 1, s.len() as int) =~= t);
        assert(seq![] + v + t =~= v + t);
    }
}

/// `$$` stands for one `$`.
pub proof fn macro_dollar_escape(m: Map<Seq<char>, Seq<char>>, env: Map<Seq<char>, Seq<char>>, t: Seq<char>)
    requires
        forall|k: int| 0 <= k < t.len() ==> #[trigger] t[k] != '$',
    ensures
        expansion(m, env, seq!['$', '$'] + t) == Ok::<Seq<char>, Seq<char>>(seq!['$'] + t),
{
    let s = seq!['$', '$'] + t;
    assert forall|k: int| 2 <= k < s.len() implies #[trigger] s[k] != '$' by {
        assert(s[k] == t[k - 2]);
    }
    lemma_expand_plain(m, env, s, 2, seq![].push('$'));
    assert(s.subrange(2, s.len() as int) =~= t);
    assert(seq![].push('$') + t =~= seq!['$'] + t);
}

} // verus!
