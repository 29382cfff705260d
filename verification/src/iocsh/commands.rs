//! The pure parts of the built-in IOC shell commands: macro strings of
//! `dbLoadRecords`, glob patterns of `dbl`, and field types of `dbpr`.
use vstd::prelude::*;
use crate::autosave::macros::{split_from, str_map};
use crate::iocsh::registry::{env_subst, subst_env_chars};
use crate::name_map::NameMap;
use crate::record::DbFieldType;
use crate::text::{chars_of, find_char, find_from, lemma_find_from, str_eq, string_of_vec, sub_vec, trim, trim_vec};

verus! {

/// One `NAME=VALUE` item of a macro string applied to `m`; the value's
/// environment references are substituted.  An item without `=` is ignored.
pub open spec fn macro_item(m: Map<Seq<char>, Seq<char>>, item: Seq<char>, env: Map<Seq<char>, Seq<char>>) -> Map<Seq<char>, Seq<char>> {
    let eq = find_from(item, 0, '=');
    if eq < item.len() {
        m.insert(trim(item.subrange(0, eq)), env_subst(trim(item.subrange(eq + 1, item.len() as int)), env))
    } else {
        m
    }
}

/// The items applied in order, later items winning.
pub open spec fn macro_items(items: Seq<Seq<char>>, env: Map<Seq<char>, Seq<char>>) -> Map<Seq<char>, Seq<char>>
    decreases items.len(),
{
    if items.len() == 0 {
        Map::empty()
    } else {
        macro_item(macro_items(items.drop_last(), env), items.last(), env)
    }
}

/// The macros of a string like `P=IOC:,R=TEMP`.
pub open spec fn macro_string_map(s: Seq<char>, env: Map<Seq<char>, Seq<char>>) -> Map<Seq<char>, Seq<char>> {
    if s.len() == 0 {
        Map::empty()
    } else {
        macro_items(split_from(s, 0, ','), env)
    }
}

/// Parse a macro string like "P=IOC:,R=TEMP".  Macro values may reference
/// environment variables via `$(ENVVAR)`.
pub fn parse_macro_string(s: &str, env: &NameMap<String>) -> (r: NameMap<String>)
    requires
        env.wf(),
    ensures
        r.wf(),
        str_map(r.map()) == macro_string_map(s@, str_map(env.map())),
{
    let ghost envm = str_map(env.map());
    let mut macros: NameMap<String> = NameMap::new();
    let v = chars_of(s);
    if v.len() == 0 {
        assert(str_map(macros.map()) =~= Map::<Seq<char>, Seq<char>>::empty());
        return macros;
    }
    let mut start: usize = 0;
    let ghost mut done: Seq<Seq<char>> = seq![];
    assert(str_map(macros.map()) =~= macro_items(done, envm));
    loop
        invariant
            start <= v.len(),
            v.len() > 0,
            macros.wf(),
            env.wf(),
            envm == str_map(env.map()),
            v@ == s@,
            split_from(v@, 0, ',') == done + split_from(v@, start as int, ','),
            str_map(macros.map()) == macro_items(done, envm),
        decreases v.len() - start,
    {
        let e = find_char(&v, start, ',');
        proof {
            lemma_find_from(v@, start as int, ',');
        }
        let item = sub_vec(&v, start, e);
        let eq = find_char(&item, 0, '=');
        proof {
            lemma_find_from(item@, 0, '=');
        }
        if eq < item.len() {
            let key = trim_vec(&sub_vec(&item, 0, eq));
            let val = subst_env_chars(&trim_vec(&sub_vec(&item, eq + 1, item.len())), env);
            let ghost before = macros.map();
            macros.insert(string_of_vec(&key), string_of_vec(&val));
            proof {
                assert(str_map(macros.map()) =~= str_map(before).insert(key@, val@));
            }
        }
        proof {
            assert(macro_items(done.push(item@), envm) == macro_item(macro_items(done, envm), item@, envm)) by {
                assert(done.push(item@).drop_last() =~= done);
            }
        }
        if e >= v.len() {
            proof {
                assert(split_from(v@, start as int, ',') =~= seq![item@]);
                done = done.push(item@);
                assert(split_from(v@, 0, ',') =~= done);
            }
            return macros;
        }
        proof {
            assert(split_from(v@, start as int, ',') =~= seq![item@] + split_from(v@, e + 1, ','));
            assert(done + split_from(v@, start as int, ',') =~= done.push(item@) + split_from(v@, e + 1, ','));
            done = done.push(item@);
        }
        start = e + 1;
    }
}

/// Whether `p[i..]` matches `t[j..]`: `*` matches any run of characters,
/// `?` any one character, and every other character itself.
pub open spec fn glob_from(p: Seq<char>, i: int, t: Seq<char>, j: int) -> bool
    decreases p.len() - i, 0int,
{
    if i < 0 || i >= p.len() {
        j >= t.len()
    } else if p[i] == '*' {
        if i + 1 >= p.len() {
            true
        } else {
            star_from(p, i + 1, t, j)
        }
    } else if p[i] == '?' {
        0 <= j < t.len() && glob_from(p, i + 1, t, j + 1)
    } else {
        0 <= j < t.len() && t[j] == p[i] && glob_from(p, i + 1, t, j + 1)
    }
}

/// Whether `p[i..]` matches `t[k..]` for some `k` from `k` on.
pub open spec fn star_from(p: Seq<char>, i: int, t: Seq<char>, k: int) -> bool
    decreases p.len() - i, t.len() - k + 1,
{
    if k < 0 || k > t.len() {
        false
    } else {
        glob_from(p, i, t, k) || (k < t.len() && star_from(p, i, t, k + 1))
    }
}

fn glob_x(p: &Vec<char>, i0: usize, t: &Vec<char>, j0: usize) -> (r: bool)
    requires
        i0 <= p.len(),
        j0 <= t.len(),
    ensures
        r == glob_from(p@, i0 as int, t@, j0 as int),
    decreases p.len() - i0, 0int,
{
    let mut i = i0;
    let mut j = j0;
    while i < p.len()
        invariant
            i0 <= i <= p.len(),
            j <= t.len(),
            glob_from(p@, i0 as int, t@, j0 as int) == glob_from(p@, i as int, t@, j as int),
        decreases p.len() - i,
    {
        if p[i] == '*' {
            if i + 1 >= p.len() {
                return true;
            }
            let mut k = j;
            loop
                invariant
                    i0 <= i < p.len(),
                    i + 1 < p.len(),
                    j <= k <= t.len(),
                    glob_from(p@, i0 as int, t@, j0 as int) == star_from(p@, i + 1, t@, k as int),
                decreases t.len() - k,
            {
                if glob_x(p, i + 1, t, k) {
                    return true;
                }
                if k >= t.len() {
                    return false;
                }
                k = k + 1;
            }
        } else if p[i] == '?' {
            if j >= t.len() {
                return false;
            }
            i = i + 1;
            j = j + 1;
        } else {
            if j < t.len() && t[j] == p[i] {
                i = i + 1;
                j = j + 1;
            } else {
                return false;
            }
        }
    }
    j >= t.len()
}

/// Whether `text` matches the glob `pattern` (`*` and `?` wildcards).
pub fn glob_match(pattern: &str, text: &str) -> (r: bool)
    ensures
        r == glob_from(pattern@, 0, text@, 0),
{
    let p = chars_of(pattern);
    let t = chars_of(text);
    glob_x(&p, 0, &t, 0)
}

/// Whether a pattern holds no wildcard from `i` on.
pub open spec fn no_wildcards(p: Seq<char>) -> bool {
    forall|k: int| 0 <= k < p.len() ==> p[k] != '*' && p[k] != '?'
}

/// `cut` places `p[i..]` over `t[cut[0]..]`: pattern character `p[i + n]`
/// covers `t[cut[n]..cut[n + 1]]`, which is any run of characters for `*`,
/// one character for `?` and that same character otherwise, and the last
/// cut is the end of `t`.
pub open spec fn glob_cuts(p: Seq<char>, i: int, t: Seq<char>, cut: Seq<int>) -> bool {
    &&& cut.len() == p.len() - i + 1
    &&& cut[cut.len() - 1] == t.len()
    &&& forall|n: int| 0 <= n < cut.len() ==> 0 <= #[trigger] cut[n] <= t.len()
    &&& forall|n: int| 0 <= n < p.len() - i ==> #[trigger] glob_piece(p[i + n], t, cut[n], cut[n + 1])
}

/// What one pattern character covers: `t[a..b]`.
pub open spec fn glob_piece(c: char, t: Seq<char>, a: int, b: int) -> bool {
    if c == '*' {
        a <= b
    } else {
        b == a + 1 && (c == '?' || t[a] == c)
    }
}

/// The texts a glob pattern describes, read anchored at both ends: `*`
/// stands for any run of characters (also none), `?` for any one
/// character, every other character for itself.
pub open spec fn in_glob(p: Seq<char>, t: Seq<char>) -> bool {
    exists|cut: Seq<int>| cut.len() > 0 && cut[0] == 0 && #[trigger] glob_cuts(p, 0, t, cut)
}

proof fn lemma_star_from(p: Seq<char>, i: int, t: Seq<char>, k: int)
    requires
        0 <= i <= p.len(),
        0 <= k <= t.len(),
    ensures
        star_from(p, i, t, k) <==> exists|m: int| k <= m <= t.len() && #[trigger] glob_from(p, i, t, m),
    decreases t.len() - k,
{
    if k < t.len() {
        lemma_star_from(p, i, t, k + 1);
    }
    if exists|m: int| k <= m <= t.len() && #[trigger] glob_from(p, i, t, m) {
        let m = choose|m: int| k <= m <= t.len() && #[trigger] glob_from(p, i, t, m);
        if m > k {
            assert(k + 1 <= m <= t.len() && glob_from(p, i, t, m));
        }
    }
    if glob_from(p, i, t, k) {
        assert(k <= k <= t.len() && glob_from(p, i, t, k));
    }
}

proof fn lemma_cuts_cons(p: Seq<char>, i: int, t: Seq<char>, j: int, rest: Seq<int>)
    requires
        0 <= i < p.len(),
        0 <= j <= t.len(),
        rest.len() > 0,
        glob_cuts(p, i + 1, t, rest),
        glob_piece(p[i], t, j, rest[0]),
    ensures
        glob_cuts(p, i, t, seq![j] + rest),
{
    let cut = seq![j] + rest;
    assert forall|n: int| 0 <= n < cut.len() implies 0 <= #[trigger] cut[n] <= t.len() by {
        if n > 0 {
            assert(cut[n] == rest[n - 1]);
        }
    }
    assert forall|n: int| 0 <= n < p.len() - i implies #[trigger] glob_piece(p[i + n], t, cut[n], cut[n + 1]) by {
        if n > 0 {
            assert(cut[n] == rest[n - 1] && cut[n + 1] == rest[n]);
            assert(glob_piece(p[(i + 1) + (n - 1)], t, rest[n - 1], rest[(n - 1) + 1]));
        }
    }
}

proof fn lemma_cuts_tail(p: Seq<char>, i: int, t: Seq<char>, cut: Seq<int>)
    requires
        0 <= i < p.len(),
        glob_cuts(p, i, t, cut),
    ensures
        glob_cuts(p, i + 1, t, cut.drop_first()),
        glob_piece(p[i], t, cut[0], cut[1]),
{
    let rest = cut.drop_first();
    assert(glob_piece(p[i + 0], t, cut[0], cut[0int + 1]));
    assert forall|n: int| 0 <= n < rest.len() implies 0 <= #[trigger] rest[n] <= t.len() by {
        assert(rest[n] == cut[n + 1]);
    }
    assert forall|n: int| 0 <= n < p.len() - (i + 1) implies #[trigger] glob_piece(p[(i + 1) + n], t, rest[n], rest[n + 1]) by {
        assert(glob_piece(p[i + (n + 1)], t, cut[n + 1], cut[(n + 1) + 1]));
    }
}

proof fn lemma_glob_cuts(p: Seq<char>, i: int, t: Seq<char>, j: int)
    requires
        0 <= i <= p.len(),
        0 <= j <= t.len(),
    ensures
        glob_from(p, i, t, j) <==> exists|cut: Seq<int>| cut.len() > 0 && cut[0] == j && #[trigger] glob_cuts(p, i, t, cut),
    decreases p.len() - i,
{
    if i == p.len() {
        if j >= t.len() {
            let cut = seq![j];
            assert(glob_cuts(p, i, t, cut));
        }
        if exists|cut: Seq<int>| cut.len() > 0 && cut[0] == j && #[trigger] glob_cuts(p, i, t, cut) {
            let cut = choose|cut: Seq<int>| cut.len() > 0 && cut[0] == j && #[trigger] glob_cuts(p, i, t, cut);
            assert(cut.len() == 1);
        }
    } else {
        // From a matching placement to `glob_from`.
        if exists|cut: Seq<int>| cut.len() > 0 && cut[0] == j && #[trigger] glob_cuts(p, i, t, cut) {
            let cut = choose|cut: Seq<int>| cut.len() > 0 && cut[0] == j && #[trigger] glob_cuts(p, i, t, cut);
            lemma_cuts_tail(p, i, t, cut);
            let m = cut[1];
            lemma_glob_cuts(p, i + 1, t, m);
            assert(cut.drop_first().len() > 0 && cut.drop_first()[0] == m && glob_cuts(p, i + 1, t, cut.drop_first()));
            assert(0 <= m <= t.len());
            if p[i] == '*' {
                if i + 1 < p.len() {
                    lemma_star_from(p, i + 1, t, j);
                    assert(j <= m <= t.len() && glob_from(p, i + 1, t, m));
                }
            }
        }
        // From `glob_from` to a matching placement.
        if glob_from(p, i, t, j) {
            if p[i] == '*' {
                if i + 1 >= p.len() {
                    let rest = seq![t.len() as int];
                    assert(glob_cuts(p, i + 1, t, rest));
                    lemma_cuts_cons(p, i, t, j, rest);
                    assert((seq![j] + rest)[0] == j);
                } else {
                    lemma_star_from(p, i + 1, t, j);
                    let m = choose|m: int| j <= m <= t.len() && #[trigger] glob_from(p, i + 1, t, m);
                    lemma_glob_cuts(p, i + 1, t, m);
                    let rest = choose|cut: Seq<int>| cut.len() > 0 && cut[0] == m && #[trigger] glob_cuts(p, i + 1, t, cut);
                    lemma_cuts_cons(p, i, t, j, rest);
                    assert((seq![j] + rest)[0] == j);
                }
            } else {
                lemma_glob_cuts(p, i + 1, t, j + 1);
                let rest = choose|cut: Seq<int>| cut.len() > 0 && cut[0] == j + 1 && #[trigger] glob_cuts(p, i + 1, t, cut);
                lemma_cuts_cons(p, i, t, j, rest);
                assert((seq![j] + rest)[0] == j);
            }
        }
    }
}

/// `glob_match` decides the anchored glob language of its pattern.
pub proof fn glob_match_is_glob_language(p: Seq<char>, t: Seq<char>)
    ensures
        glob_from(p, 0, t, 0) == in_glob(p, t),
{
    lemma_glob_cuts(p, 0, t, 0);
}

/// A pattern without wildcards matches exactly the text equal to it.
pub proof fn glob_literal(p: Seq<char>, t: Seq<char>)
    requires
        no_wildcards(p),
    ensures
        glob_from(p, 0, t, 0) <==> p == t,
{
    glob_literal_from(p, 0, t, 0);
    if p.len() == t.len() && glob_from(p, 0, t, 0) {
        assert forall|k: int| 0 <= k < p.len() implies p[k] == t[k] by {
            assert(p[0 + k] == t[0 + k]);
        }
        assert(p =~= t);
    }
    if p == t {
        assert forall|k: int| 0 <= k < p.len() - 0 implies #[trigger] p[0 + k] == t[0 + k] by {}
    }
}

proof fn glob_literal_from(p: Seq<char>, i: int, t: Seq<char>, j: int)
    requires
        no_wildcards(p),
        0 <= i <= p.len(),
        0 <= j <= t.len(),
    ensures
        glob_from(p, i, t, j) <==> (p.len() - i == t.len() - j && forall|k: int| 0 <= k < p.len() - i ==> #[trigger] p[i + k] == t[j + k]),
    decreases p.len() - i,
{
    if i < p.len() && j < t.len() {
        glob_literal_from(p, i + 1, t, j + 1);
        if glob_from(p, i, t, j) {
            assert forall|k: int| 0 <= k < p.len() - i implies #[trigger] p[i + k] == t[j + k] by {
                if k > 0 {
                    assert(p[(i + 1) + (k - 1)] == t[(j + 1) + (k - 1)]);
                }
            }
        }
        if p.len() - i == t.len() - j && (forall|k: int| 0 <= k < p.len() - i ==> #[trigger] p[i + k] == t[j + k]) {
            assert(p[i + 0] == t[j + 0]);
            assert forall|k: int| 0 <= k < p.len() - (i + 1) implies #[trigger] p[(i + 1) + k] == t[(j + 1) + k] by {
                assert(p[i + (k + 1)] == t[j + (k + 1)]);
            }
        }
    }
}

/// The database field type of a common field name, as `dbpr` shows it.
pub open spec fn common_field_type(f: Seq<char>) -> Option<DbFieldType> {
    if f == "SCAN"@ || f == "DTYP"@ || f == "INP"@ || f == "OUT"@ || f == "FLNK"@ || f == "ASG"@ {
        Some(DbFieldType::String)
    } else if f == "SEVR"@ || f == "STAT"@ || f == "HHSV"@ || f == "HSV"@ || f == "LSV"@ || f == "LLSV"@ {
        Some(DbFieldType::Short)
    } else if f == "UDF"@ || f == "PINI"@ || f == "TPRO"@ {
        Some(DbFieldType::Char)
    } else if f == "HIHI"@ || f == "HIGH"@ || f == "LOW"@ || f == "LOLO"@ {
        Some(DbFieldType::Double)
    } else {
        None
    }
}

/// Map common field names to their DBF types.
pub fn common_field_dbf_type(field: &str) -> (r: Option<DbFieldType>)
    ensures
        r == common_field_type(field@),
{
    if str_eq(field, "SCAN") || str_eq(field, "DTYP") || str_eq(field, "INP") || str_eq(field, "OUT")
        || str_eq(field, "FLNK") || str_eq(field, "ASG") {
        Some(DbFieldType::String)
    } else if str_eq(field, "SEVR") || str_eq(field, "STAT") || str_eq(field, "HHSV") || str_eq(field, "HSV")
        || str_eq(field, "LSV") || str_eq(field, "LLSV") {
        Some(DbFieldType::Short)
    } else if str_eq(field, "UDF") || str_eq(field, "PINI") || str_eq(field, "TPRO") {
        Some(DbFieldType::Char)
    } else if str_eq(field, "HIHI") || str_eq(field, "HIGH") || str_eq(field, "LOW") || str_eq(field, "LOLO") {
        Some(DbFieldType::Double)
    } else {
        None
    }
}

} // verus!
