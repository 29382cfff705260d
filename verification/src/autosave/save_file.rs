//! Save files (`.sav`): `NAME VALUE` lines, `#NAME\t(not connected)` lines,
//! C autosave `@array@` lines and the closing `<END>` marker; and the text
//! form of the integer and string kinds of PV values.
use vstd::prelude::*;
use crate::number::{decimal_round_trip, int_of, parse_int};
use crate::text::{
    char_is_white, chars_eq_str, chars_of, ends_with, find_char, find_from, find_sub,
    find_sub_from, has_prefix_at, is_white, lemma_find_from, lemma_find_sub_from, lines,
    push_all, push_decimal, push_signed_decimal, push_str, signed_decimal, decimal, split_lines,
    starts_with, str_eq, string_of_vec, sub_vec, trim, trim_bounds, trim_vec, views_of,
    trim_left, trim_right, strip_cr, lines_from, is_ascii_digit, lemma_lines_cons,
    lemma_find_from_skip, lemma_find_from_after, lemma_trim_left_no_lead, lemma_trim_right_no_trail,
};
use crate::autosave::macros::split_from;
use crate::record::FieldValue;

verus! {

/// A single PV entry in a .sav file.
#[derive(Debug, Clone)]
pub struct SaveEntry {
    pub pv_name: String,
    pub value: String,
    pub connected: bool,
}

/// What an entry says.
pub struct SaveModel {
    pub pv_name: Seq<char>,
    pub value: Seq<char>,
    pub connected: bool,
}

impl SaveEntry {
    pub open spec fn model(&self) -> SaveModel {
        SaveModel { pv_name: self.pv_name@, value: self.value@, connected: self.connected }
    }
}

pub open spec fn save_models(v: Seq<SaveEntry>) -> Seq<SaveModel> {
    Seq::new(v.len(), |i: int| v[i].model())
}

// ---------------------------------------------------------------------
// End marker
// ---------------------------------------------------------------------
/// The last non-blank line of `ls` (trimmed) is `<END>`.
pub open spec fn ends_with_marker(ls: Seq<Seq<char>>) -> bool
    decreases ls.len(),
{
    if ls.len() == 0 {
        false
    } else if trim(ls.last()).len() == 0 {
        ends_with_marker(ls.drop_last())
    } else {
        trim(ls.last()) == "<END>"@
    }
}

/// Quick check if a .sav file text has a valid `<END>` marker.
pub fn has_end_marker(content: &str) -> (r: bool)
    ensures
        r == ends_with_marker(lines(content@)),
{
    let text = chars_of(content);
    let ls = split_lines(&text);
    let ghost lv = views_of(ls@);
    let mut k: usize = ls.len();
    assert(lv.subrange(0, k as int) =~= lv);
    while k > 0
        invariant
            k <= ls@.len(),
            lv == views_of(ls@),
            lv == lines(content@),
            ends_with_marker(lv) == ends_with_marker(lv.subrange(0, k as int)),
        decreases k,
    {
        let t = trim_vec(&ls[k - 1]);
        proof {
            assert(lv.subrange(0, k as int).drop_last() =~= lv.subrange(0, k - 1));
            assert(lv.subrange(0, k as int).last() == lv[k - 1]);
        }
        if t.len() > 0 {
            return chars_eq_str(&t, "<END>");
        }
        k = k - 1;
    }
    false
}

// ---------------------------------------------------------------------
// C array elements
// ---------------------------------------------------------------------
/// A quoted element read from just after its opening quote: `\x` stands for
/// `x`, and the element ends at the closing quote or the end of the text.
pub open spec fn quoted_from(s: Seq<char>, i: int, cur: Seq<char>) -> (Seq<char>, int)
    decreases s.len() - i,
{
    if i < 0 || i >= s.len() {
        (cur, s.len() as int)
    } else if s[i] == '\\' {
        if i + 1 < s.len() {
            quoted_from(s, i + 2, cur.push(s[i + 1]))
        } else {
            (cur, s.len() as int)
        }
    } else if s[i] == '"' {
        (cur, i + 1)
    } else {
        quoted_from(s, i + 1, cur.push(s[i]))
    }
}

pub proof fn lemma_quoted_from(s: Seq<char>, i: int, cur: Seq<char>)
    requires
        0 <= i <= s.len(),
    ensures
        i <= quoted_from(s, i, cur).1 <= s.len(),
    decreases s.len() - i,
{
    if i < s.len() {
        if s[i] == '\\' {
            if i + 1 < s.len() {
                lemma_quoted_from(s, i + 2, cur.push(s[i + 1]));
            }
        } else if s[i] != '"' {
            lemma_quoted_from(s, i + 1, cur.push(s[i]));
        }
    }
}

/// End of the run of non-whitespace that starts at `i`.
pub open spec fn token_end(s: Seq<char>, i: int) -> int
    decreases s.len() - i,
{
    if i < 0 || i >= s.len() || is_white(s[i]) {
        i
    } else {
        token_end(s, i + 1)
    }
}

pub proof fn lemma_token_end(s: Seq<char>, i: int)
    requires
        0 <= i <= s.len(),
    ensures
        i <= token_end(s, i) <= s.len(),
        i < s.len() && !is_white(s[i]) ==> token_end(s, i) > i,
    decreases s.len() - i,
{
    if i < s.len() && !is_white(s[i]) {
        lemma_token_end(s, i + 1);
    }
}

/// End of the whitespace that starts at `i`.
pub open spec fn white_end(s: Seq<char>, i: int) -> int
    decreases s.len() - i,
{
    if i < 0 || i >= s.len() || !is_white(s[i]) {
        i
    } else {
        white_end(s, i + 1)
    }
}

pub proof fn lemma_white_end(s: Seq<char>, i: int)
    requires
        0 <= i <= s.len(),
    ensures
        i <= white_end(s, i) <= s.len(),
        white_end(s, i) < s.len() ==> !is_white(s[white_end(s, i)]),
    decreases s.len() - i,
{
    if i < s.len() && is_white(s[i]) {
        lemma_white_end(s, i + 1);
    }
}

/// The elements of `"e1" "e2"` or `1.0 2.0` from `i`, after those in `acc`.
pub open spec fn elements_from(s: Seq<char>, i: int, acc: Seq<Seq<char>>) -> Seq<Seq<char>>
    decreases s.len() - i,
{
    if i < 0 || i > s.len() {
        acc
    } else {
        let w = white_end(s, i);
        proof {
            lemma_white_end(s, i);
        }
        if w >= s.len() {
            acc
        } else if s[w] == '"' {
            let (e, next) = quoted_from(s, w + 1, seq![]);
            proof {
                lemma_quoted_from(s, w + 1, seq![]);
            }
            elements_from(s, next, acc.push(e))
        } else {
            let te = token_end(s, w);
            proof {
                lemma_token_end(s, w);
            }
            elements_from(s, te, acc.push(s.subrange(w, te)))
        }
    }
}

pub open spec fn c_array_elements(s: Seq<char>) -> Seq<Seq<char>> {
    elements_from(s, 0, seq![])
}

pub open spec fn strings_view(v: Seq<String>) -> Seq<Seq<char>> {
    Seq::new(v.len(), |i: int| v[i]@)
}

/// Parse C array elements: `"e1" "e2" "e3"` or `1.0 2.0 3.0`.
pub fn parse_c_array_elements(s: &str) -> (r: Vec<String>)
    ensures
        strings_view(r@) == c_array_elements(s@),
{
    let v = chars_of(s);
    let mut elements: Vec<String> = Vec::new();
    let mut i: usize = 0;
    assert(strings_view(elements@) =~= Seq::<Seq<char>>::empty());
    loop
        invariant
            i <= v.len(),
            v@ == s@,
            c_array_elements(v@) == elements_from(v@, i as int, strings_view(elements@)),
        decreases v.len() - i,
    {
        let mut w = i;
        while w < v.len() && char_is_white(v[w])
            invariant
                i <= w <= v.len(),
                white_end(v@, i as int) == white_end(v@, w as int),
            decreases v.len() - w,
        {
            w = w + 1;
        }
        if w >= v.len() {
            return elements;
        }
        if v[w] == '"' {
            let mut elem: Vec<char> = Vec::new();
            let mut j: usize = w + 1;
            let mut done = false;
            proof {
                lemma_quoted_from(v@, w + 1, seq![]);
            }
            while !done && j < v.len()
                invariant
                    w < j <= v.len(),
                    !done ==> quoted_from(v@, w + 1, seq![]) == quoted_from(v@, j as int, elem@),
                    done ==> quoted_from(v@, w + 1, seq![]) == (elem@, j as int),
                decreases v.len() - j,
            {
                let c = v[j];
                if c == '\\' {
                    if j + 1 < v.len() {
                        elem.push(v[j + 1]);
                        j = j + 2;
                    } else {
                        j = v.len();
                    }
                } else if c == '"' {
                    j = j + 1;
                    done = true;
                } else {
                    elem.push(c);
                    j = j + 1;
                }
            }
            let ghost old_e = elements@;
            elements.push(string_of_vec(&elem));
            assert(strings_view(elements@) =~= strings_view(old_e).push(elem@));
            i = j;
        } else {
            let mut te = w;
            while te < v.len() && !char_is_white(v[te])
                invariant
                    w <= te <= v.len(),
                    token_end(v@, w as int) == token_end(v@, te as int),
                decreases v.len() - te,
            {
                te = te + 1;
            }
            let ghost old_e = elements@;
            elements.push(string_of_vec(&sub_vec(&v, w, te)));
            assert(strings_view(elements@) =~= strings_view(old_e).push(v@.subrange(w as int, te as int)));
            i = te;
        }
    }
}

/// Elements joined by commas inside brackets: `[a,b,c]`.
pub open spec fn bracket_join(items: Seq<Seq<char>>) -> Seq<char> {
    seq!['['] + join_commas(items) + seq![']']
}

pub open spec fn join_commas(items: Seq<Seq<char>>) -> Seq<char>
    decreases items.len(),
{
    if items.len() == 0 {
        seq![]
    } else if items.len() == 1 {
        items[0]
    } else {
        join_commas(items.drop_last()) + seq![','] + items.last()
    }
}

/// Appends `[a,b,c]`.
fn push_bracket_join(out: &mut Vec<char>, items: &Vec<String>)
    ensures
        final(out)@ == old(out)@ + bracket_join(strings_view(items@)),
{
    out.push('[');
    let mut i: usize = 0;
    while i < items.len()
        invariant
            i <= items@.len(),
            out@ == old(out)@ + seq!['['] + join_commas(strings_view(items@).subrange(0, i as int)),
        decreases items.len() - i,
    {
        let ghost before = out@;
        if i > 0 {
            out.push(',');
        }
        let t = chars_of(items[i].as_str());
        push_all(out, &t);
        proof {
            let sv = strings_view(items@);
            assert(sv.subrange(0, i + 1).drop_last() =~= sv.subrange(0, i as int));
            assert(sv.subrange(0, i + 1).last() == items@[i as int]@);
            if i == 0 {
                assert(sv.subrange(0, 1) =~= seq![items@[0]@]);
            }
        }
        i = i + 1;
    }
    out.push(']');
    assert(strings_view(items@).subrange(0, i as int) =~= strings_view(items@));
}

// ---------------------------------------------------------------------
// Lines of a save file
// ---------------------------------------------------------------------
/// `PV_NAME @array@ { "e1" "e2" }` as an entry with value `[e1,e2]`.
pub open spec fn c_array_line(t: Seq<char>) -> Option<SaveModel> {
    let m = find_sub_from(t, 0, "@array@"@);
    if m >= t.len() {
        None
    } else {
        let pv = trim(t.subrange(0, m));
        let rest = trim(t.subrange(m + 7, t.len() as int));
        if !(starts_with(rest, "{"@) && ends_with(rest, "}"@)) || rest.len() < 2 {
            None
        } else {
            let inner = trim(rest.subrange(1, rest.len() - 1));
            Some(SaveModel { pv_name: pv, value: bracket_join(c_array_elements(inner)), connected: true })
        }
    }
}

/// The first field of `t` before a tab or space.
pub open spec fn first_field(t: Seq<char>) -> Seq<char> {
    t.subrange(0, field_end(t, 0))
}

pub open spec fn field_end(t: Seq<char>, i: int) -> int
    decreases t.len() - i,
{
    if i < 0 || i >= t.len() || t[i] == '\t' || t[i] == ' ' {
        if i < 0 { 0 } else if i > t.len() { t.len() as int } else { i }
    } else {
        field_end(t, i + 1)
    }
}

/// The entries of the lines `ls[k..]`, after those in `acc`; reading stops
/// at `<END>`.
pub open spec fn save_lines_from(ls: Seq<Seq<char>>, k: int, acc: Seq<SaveModel>) -> Seq<SaveModel>
    decreases ls.len() - k,
{
    if k < 0 || k >= ls.len() {
        acc
    } else {
        let t = trim(ls[k]);
        if t.len() == 0 {
            save_lines_from(ls, k + 1, acc)
        } else if t == "<END>"@ {
            acc
        } else if t[0] == '#' {
            let inner = t.drop_first();
            if find_sub_from(inner, 0, "(not connected)"@) < inner.len() {
                let pv = trim(first_field(inner));
                if pv.len() > 0 {
                    save_lines_from(ls, k + 1, acc.push(SaveModel { pv_name: pv, value: seq![], connected: false }))
                } else {
                    save_lines_from(ls, k + 1, acc)
                }
            } else {
                save_lines_from(ls, k + 1, acc)
            }
        } else if find_sub_from(t, 0, "@array@"@) < t.len() && c_array_line(t) is Some {
            save_lines_from(ls, k + 1, acc.push(c_array_line(t).unwrap()))
        } else {
            let sp = find_from(t, 0, ' ');
            if sp < t.len() {
                save_lines_from(ls, k + 1, acc.push(SaveModel {
                    pv_name: t.subrange(0, sp),
                    value: t.subrange(sp + 1, t.len() as int),
                    connected: true,
                }))
            } else {
                save_lines_from(ls, k + 1, acc)
            }
        }
    }
}

pub open spec fn save_content(content: Seq<char>) -> Seq<SaveModel> {
    save_lines_from(lines(content), 0, seq![])
}

/// The line of one entry: `NAME VALUE`, or `#NAME\t(not connected)` for
/// a PV that did not answer.
pub open spec fn entry_line(e: SaveModel) -> Seq<char> {
    if e.connected {
        e.pv_name + " "@ + e.value
    } else {
        "#"@ + e.pv_name + "\t(not connected)"@
    }
}

/// The lines of the entries, each ended by a newline.
pub open spec fn entry_lines(v: Seq<SaveModel>) -> Seq<char>
    decreases v.len(),
{
    if v.len() == 0 {
        Seq::empty()
    } else {
        entry_lines(v.drop_last()) + entry_line(v.last()) + "\n"@
    }
}

/// The text of a save file written at `timestamp`: a header comment, the
/// entry lines and the `<END>` marker.
pub open spec fn save_file_content(timestamp: Seq<char>, v: Seq<SaveModel>) -> Seq<char> {
    "# "@ + "autosave-rs V1.0"@ + "\t"@ + timestamp + "\n"@ + entry_lines(v) + "<END>"@ + "\n"@
}

/// The text of a save file holding `entries`, written at `timestamp`.
pub fn save_file_text(timestamp: &str, entries: &Vec<SaveEntry>) -> (r: String)
    ensures
        r@ == save_file_content(timestamp@, save_models(entries@)),
{
    let mut out: Vec<char> = Vec::new();
    push_str(&mut out, "# ");
    push_str(&mut out, crate::autosave::format::VERSION);
    push_str(&mut out, "\t");
    push_str(&mut out, timestamp);
    push_str(&mut out, "\n");
    let ghost head = out@;
    let mut i: usize = 0;
    while i < entries.len()
        invariant
            i <= entries@.len(),
            out@ == head + entry_lines(save_models(entries@).subrange(0, i as int)),
        decreases entries.len() - i,
    {
        let ghost before = out@;
        if entries[i].connected {
            push_str(&mut out, entries[i].pv_name.as_str());
            push_str(&mut out, " ");
            push_str(&mut out, entries[i].value.as_str());
        } else {
            push_str(&mut out, "#");
            push_str(&mut out, entries[i].pv_name.as_str());
            push_str(&mut out, "\t(not connected)");
        }
        push_str(&mut out, "\n");
        proof {
            let sm = save_models(entries@);
            assert(sm.subrange(0, i + 1).drop_last() =~= sm.subrange(0, i as int));
            assert(sm.subrange(0, i + 1).last() == entries@[i as int].model());
            assert(out@ =~= before + entry_line(entries@[i as int].model()) + "\n"@);
        }
        i = i + 1;
    }
    push_str(&mut out, "<END>");
    push_str(&mut out, "\n");
    proof {
        assert(save_models(entries@).subrange(0, entries@.len() as int) =~= save_models(entries@));
    }
    string_of_vec(&out)
}

/// Parse a C autosave `@array@` line.
pub fn parse_c_array_line(line: &Vec<char>) -> (r: Option<SaveEntry>)
    ensures
        match r {
            Some(e) => c_array_line(line@) == Some(e.model()),
            None => c_array_line(line@) is None,
        },
{
    let marker = chars_of("@array@");
    let m = find_sub(line, 0, &marker);
    if m >= line.len() {
        return None;
    }
    proof {
        lemma_find_sub_from(line@, 0, marker@);
        reveal_strlit("@array@");
    }
    let pv = trim_vec(&sub_vec(line, 0, m));
    let rest = trim_vec(&sub_vec(line, m + 7, line.len()));
    proof {
        reveal_strlit("{");
        reveal_strlit("}");
    }
    if rest.len() < 2 || rest[0] != '{' || rest[rest.len() - 1] != '}' {
        proof {
            if rest@.len() >= 2 && starts_with(rest@, "{"@) && ends_with(rest@, "}"@) {
                assert(rest@.subrange(0, 1)[0] == rest@[0]);
                assert(rest@.subrange(rest@.len() - 1, rest@.len() as int)[0] == rest@[rest@.len() - 1]);
            }
        }
        return None;
    }
    proof {
        assert(rest@.subrange(0, 1) =~= "{"@);
        assert(rest@.subrange(rest@.len() - 1, rest@.len() as int) =~= "}"@);
    }
    let inner = trim_vec(&sub_vec(&rest, 1, rest.len() - 1));
    let elements = parse_c_array_elements(string_of_vec(&inner).as_str());
    let mut value: Vec<char> = Vec::new();
    push_bracket_join(&mut value, &elements);
    assert(value@ =~= bracket_join(c_array_elements(inner@)));
    Some(SaveEntry { pv_name: string_of_vec(&pv), value: string_of_vec(&value), connected: true })
}

/// Parse the text of a save file into its entries.
pub fn parse_save_content(content: &str) -> (r: Vec<SaveEntry>)
    ensures
        save_models(r@) == save_content(content@),
{
    let text = chars_of(content);
    let ls = split_lines(&text);
    let ghost lv = views_of(ls@);
    let mut entries: Vec<SaveEntry> = Vec::new();
    let mut k: usize = 0;
    assert(save_models(entries@) =~= Seq::<SaveModel>::empty());
    let not_connected = chars_of("(not connected)");
    let marker = chars_of("@array@");
    while k < ls.len()
        invariant
            k <= ls@.len(),
            lv == views_of(ls@),
            lv == lines(content@),
            not_connected@ == "(not connected)"@,
            marker@ == "@array@"@,
            save_content(content@) == save_lines_from(lv, k as int, save_models(entries@)),
        decreases ls.len() - k,
    {
        let t = trim_vec(&ls[k]);
        assert(t@ == trim(lv[k as int]));
        if t.len() == 0 {
            k = k + 1;
            continue;
        }
        if chars_eq_str(&t, "<END>") {
            return entries;
        }
        let ghost old_e = entries@;
        if t[0] == '#' {
            let inner = sub_vec(&t, 1, t.len());
            assert(inner@ =~= t@.drop_first());
            if find_sub(&inner, 0, &not_connected) < inner.len() {
                let mut fe: usize = 0;
                while fe < inner.len() && !(inner[fe] == '\t' || inner[fe] == ' ')
                    invariant
                        fe <= inner.len(),
                        field_end(inner@, 0) == field_end(inner@, fe as int),
                    decreases inner.len() - fe,
                {
                    fe = fe + 1;
                }
                let pv = trim_vec(&sub_vec(&inner, 0, fe));
                if pv.len() > 0 {
                    let empty: Vec<char> = Vec::new();
                    let e = SaveEntry { pv_name: string_of_vec(&pv), value: string_of_vec(&empty), connected: false };
                    entries.push(e);
                    assert(empty@ =~= Seq::<char>::empty());
                    assert(save_models(entries@) =~= save_models(old_e).push(e.model()));
                }
            }
            k = k + 1;
            continue;
        }
        if find_sub(&t, 0, &marker) < t.len() {
            match parse_c_array_line(&t) {
                Some(e) => {
                    entries.push(e);
                    assert(save_models(entries@) =~= save_models(old_e).push(e.model()));
                    k = k + 1;
                    continue;
                },
                None => {},
            }
        }
        let sp = find_char(&t, 0, ' ');
        if sp < t.len() {
            let e = SaveEntry {
                pv_name: string_of_vec(&sub_vec(&t, 0, sp)),
                value: string_of_vec(&sub_vec(&t, sp + 1, t.len())),
                connected: true,
            };
            entries.push(e);
            assert(save_models(entries@) =~= save_models(old_e).push(e.model()));
        }
        k = k + 1;
    }
    entries
}

// ---------------------------------------------------------------------
// Values
// ---------------------------------------------------------------------
/// The save-file text of a string: quoted, with `\` and `"` escaped.
pub open spec fn escape_save(s: Seq<char>) -> Seq<char>
    decreases s.len(),
{
    if s.len() == 0 {
        seq![]
    } else {
        let c = s.last();
        escape_save(s.drop_last()) + if c == '\\' {
            seq!['\\', '\\']
        } else if c == '"' {
            seq!['\\', '"']
        } else {
            seq![c]
        }
    }
}

pub open spec fn decimals(v: Seq<int>) -> Seq<Seq<char>> {
    Seq::new(v.len(), |i: int| signed_decimal(v[i]))
}

pub open spec fn ints_i16(v: Seq<i16>) -> Seq<int> {
    Seq::new(v.len(), |i: int| v[i] as int)
}

pub open spec fn ints_i32(v: Seq<i32>) -> Seq<int> {
    Seq::new(v.len(), |i: int| v[i] as int)
}

pub open spec fn ints_u16(v: Seq<u16>) -> Seq<int> {
    Seq::new(v.len(), |i: int| v[i] as int)
}

pub open spec fn ints_u8(v: Seq<u8>) -> Seq<int> {
    Seq::new(v.len(), |i: int| v[i] as int)
}

/// The save-file text of a value.
pub open spec fn save_text(v: FieldValue) -> Seq<char> {
    match v {
        FieldValue::String(s) => seq!['"'] + escape_save(s@) + seq!['"'],
        FieldValue::Short(x) => signed_decimal(x as int),
        FieldValue::Long(x) => signed_decimal(x as int),
        FieldValue::Enum(x) => signed_decimal(x as int),
        FieldValue::Char(x) => signed_decimal(x as int),
        FieldValue::ShortArray(a) => bracket_join(decimals(ints_i16(a@))),
        FieldValue::LongArray(a) => bracket_join(decimals(ints_i32(a@))),
        FieldValue::EnumArray(a) => bracket_join(decimals(ints_u16(a@))),
        FieldValue::CharArray(a) => bracket_join(decimals(ints_u8(a@))),
    }
}

/// Appends `[a,b,c]` for the decimal forms of `v`.
fn push_int_array(out: &mut Vec<char>, v: &Vec<i64>)
    ensures
        final(out)@ == old(out)@ + bracket_join(decimals(Seq::new(v@.len(), |i: int| v@[i] as int))),
{
    let ghost ints = Seq::new(v@.len(), |i: int| v@[i] as int);
    out.push('[');
    let mut i: usize = 0;
    while i < v.len()
        invariant
            i <= v@.len(),
            ints == Seq::new(v@.len(), |i: int| v@[i] as int),
            out@ == old(out)@ + seq!['['] + join_commas(decimals(ints).subrange(0, i as int)),
        decreases v.len() - i,
    {
        if i > 0 {
            out.push(',');
        }
        push_signed_decimal(out, v[i]);
        proof {
            let sv = decimals(ints);
            assert(sv.subrange(0, i + 1).drop_last() =~= sv.subrange(0, i as int));
            assert(sv.subrange(0, i + 1).last() == signed_decimal(v@[i as int] as int));
            if i == 0 {
                assert(sv.subrange(0, 1) =~= seq![sv[0]]);
            }
        }
        i = i + 1;
    }
    out.push(']');
    assert(decimals(ints).subrange(0, i as int) =~= decimals(ints));
}

/// Convert a value to its save file text.
pub fn value_to_save_str(value: &FieldValue) -> (r: String)
    ensures
        r@ == save_text(*value),
{
    let mut out: Vec<char> = Vec::new();
    match value {
        FieldValue::String(s) => {
            let v = chars_of(s.as_str());
            out.push('"');
            let mut i: usize = 0;
            while i < v.len()
                invariant
                    i <= v@.len(),
                    out@ == seq!['"'] + escape_save(v@.subrange(0, i as int)),
                decreases v.len() - i,
            {
                let c = v[i];
                if c == '\\' {
                    out.push('\\');
                    out.push('\\');
                } else if c == '"' {
                    out.push('\\');
                    out.push('"');
                } else {
                    out.push(c);
                }
                proof {
                    assert(v@.subrange(0, i + 1).drop_last() =~= v@.subrange(0, i as int));
                }
                i = i + 1;
                assert(out@ =~= seq!['"'] + escape_save(v@.subrange(0, i as int)));
            }
            out.push('"');
            assert(v@.subrange(0, i as int) =~= v@);
        },
        FieldValue::Short(x) => push_signed_decimal(&mut out, *x as i64),
        FieldValue::Long(x) => push_signed_decimal(&mut out, *x as i64),
        FieldValue::Enum(x) => push_signed_decimal(&mut out, *x as i64),
        FieldValue::Char(x) => push_signed_decimal(&mut out, *x as i64),
        FieldValue::ShortArray(a) => {
            let mut w: Vec<i64> = Vec::new();
            let mut i: usize = 0;
            while i < a.len()
                invariant
                    i <= a@.len(),
                    w@.len() == i,
                    forall|j: int| 0 <= j < i ==> w@[j] as int == a@[j] as int,
                decreases a.len() - i,
            {
                w.push(a[i] as i64);
                i = i + 1;
            }
            push_int_array(&mut out, &w);
            assert(Seq::new(w@.len(), |i: int| w@[i] as int) =~= ints_i16(a@));
        },
        FieldValue::LongArray(a) => {
            let mut w: Vec<i64> = Vec::new();
            let mut i: usize = 0;
            while i < a.len()
                invariant
                    i <= a@.len(),
                    w@.len() == i,
                    forall|j: int| 0 <= j < i ==> w@[j] as int == a@[j] as int,
                decreases a.len() - i,
            {
                w.push(a[i] as i64);
                i = i + 1;
            }
            push_int_array(&mut out, &w);
            assert(Seq::new(w@.len(), |i: int| w@[i] as int) =~= ints_i32(a@));
        },
        FieldValue::EnumArray(a) => {
            let mut w: Vec<i64> = Vec::new();
            let mut i: usize = 0;
            while i < a.len()
                invariant
                    i <= a@.len(),
                    w@.len() == i,
                    forall|j: int| 0 <= j < i ==> w@[j] as int == a@[j] as int,
                decreases a.len() - i,
            {
                w.push(a[i] as i64);
                i = i + 1;
            }
            push_int_array(&mut out, &w);
            assert(Seq::new(w@.len(), |i: int| w@[i] as int) =~= ints_u16(a@));
        },
        FieldValue::CharArray(a) => {
            let mut w: Vec<i64> = Vec::new();
            let mut i: usize = 0;
            while i < a.len()
                invariant
                    i <= a@.len(),
                    w@.len() == i,
                    forall|j: int| 0 <= j < i ==> w@[j] as int == a@[j] as int,
                decreases a.len() - i,
            {
                w.push(a[i] as i64);
                i = i + 1;
            }
            push_int_array(&mut out, &w);
            assert(Seq::new(w@.len(), |i: int| w@[i] as int) =~= ints_u8(a@));
        },
    }
    string_of_vec(&out)
}

/// What a value says: its kind and its contents.
pub enum ValueModel {
    String(Seq<char>),
    Short(int),
    Long(int),
    Enum(int),
    Char(int),
    ShortArray(Seq<int>),
    LongArray(Seq<int>),
    EnumArray(Seq<int>),
    CharArray(Seq<int>),
}

impl FieldValue {
    pub open spec fn model(&self) -> ValueModel {
        match self {
            FieldValue::String(s) => ValueModel::String(s@),
            FieldValue::Short(x) => ValueModel::Short(*x as int),
            FieldValue::Long(x) => ValueModel::Long(*x as int),
            FieldValue::Enum(x) => ValueModel::Enum(*x as int),
            FieldValue::Char(x) => ValueModel::Char(*x as int),
            FieldValue::ShortArray(a) => ValueModel::ShortArray(ints_i16(a@)),
            FieldValue::LongArray(a) => ValueModel::LongArray(ints_i32(a@)),
            FieldValue::EnumArray(a) => ValueModel::EnumArray(ints_u16(a@)),
            FieldValue::CharArray(a) => ValueModel::CharArray(ints_u8(a@)),
        }
    }
}

proof fn lemma_ints_i16_same(a: Seq<i16>, b: Seq<i16>)
    ensures
        ints_i16(a) == ints_i16(b) <==> a == b,
{
    if ints_i16(a) == ints_i16(b) {
        assert(ints_i16(a).len() == a.len() && ints_i16(b).len() == b.len());
        assert forall|i: int| 0 <= i < a.len() implies a[i] == b[i] by {
            assert(ints_i16(a)[i] == a[i] as int);
            assert(ints_i16(b)[i] == b[i] as int);
            assert(ints_i16(a)[i] == ints_i16(b)[i]);
        }
        assert(a =~= b);
    }
}

fn same_ints_i16(x: &Vec<i16>, y: &Vec<i16>) -> (r: bool)
    ensures
        r == (ints_i16(x@) == ints_i16(y@)),
{
    let r = *x == *y;
    proof {
        lemma_ints_i16_same(x@, y@);
        if x@ == y@ {
            assert forall|i: int| 0 <= i < x.len() implies x[i] == y[i] by {}
        }
        if r {
            assert(x@ =~= y@);
        }
    }
    r
}

proof fn lemma_ints_i32_same(a: Seq<i32>, b: Seq<i32>)
    ensures
        ints_i32(a) == ints_i32(b) <==> a == b,
{
    if ints_i32(a) == ints_i32(b) {
        assert(ints_i32(a).len() == a.len() && ints_i32(b).len() == b.len());
        assert forall|i: int| 0 <= i < a.len() implies a[i] == b[i] by {
            assert(ints_i32(a)[i] == a[i] as int);
            assert(ints_i32(b)[i] == b[i] as int);
            assert(ints_i32(a)[i] == ints_i32(b)[i]);
        }
        assert(a =~= b);
    }
}

fn same_ints_i32(x: &Vec<i32>, y: &Vec<i32>) -> (r: bool)
    ensures
        r == (ints_i32(x@) == ints_i32(y@)),
{
    let r = *x == *y;
    proof {
        lemma_ints_i32_same(x@, y@);
        if x@ == y@ {
            assert forall|i: int| 0 <= i < x.len() implies x[i] == y[i] by {}
        }
        if r {
            assert(x@ =~= y@);
        }
    }
    r
}

proof fn lemma_ints_u16_same(a: Seq<u16>, b: Seq<u16>)
    ensures
        ints_u16(a) == ints_u16(b) <==> a == b,
{
    if ints_u16(a) == ints_u16(b) {
        assert(ints_u16(a).len() == a.len() && ints_u16(b).len() == b.len());
        assert forall|i: int| 0 <= i < a.len() implies a[i] == b[i] by {
            assert(ints_u16(a)[i] == a[i] as int);
            assert(ints_u16(b)[i] == b[i] as int);
            assert(ints_u16(a)[i] == ints_u16(b)[i]);
        }
        assert(a =~= b);
    }
}

fn same_ints_u16(x: &Vec<u16>, y: &Vec<u16>) -> (r: bool)
    ensures
        r == (ints_u16(x@) == ints_u16(y@)),
{
    let r = *x == *y;
    proof {
        lemma_ints_u16_same(x@, y@);
        if x@ == y@ {
            assert forall|i: int| 0 <= i < x.len() implies x[i] == y[i] by {}
        }
        if r {
            assert(x@ =~= y@);
        }
    }
    r
}

proof fn lemma_ints_u8_same(a: Seq<u8>, b: Seq<u8>)
    ensures
        ints_u8(a) == ints_u8(b) <==> a == b,
{
    if ints_u8(a) == ints_u8(b) {
        assert(ints_u8(a).len() == a.len() && ints_u8(b).len() == b.len());
        assert forall|i: int| 0 <= i < a.len() implies a[i] == b[i] by {
            assert(ints_u8(a)[i] == a[i] as int);
            assert(ints_u8(b)[i] == b[i] as int);
            assert(ints_u8(a)[i] == ints_u8(b)[i]);
        }
        assert(a =~= b);
    }
}

fn same_ints_u8(x: &Vec<u8>, y: &Vec<u8>) -> (r: bool)
    ensures
        r == (ints_u8(x@) == ints_u8(y@)),
{
    let r = *x == *y;
    proof {
        lemma_ints_u8_same(x@, y@);
        if x@ == y@ {
            assert forall|i: int| 0 <= i < x.len() implies x[i] == y[i] by {}
        }
        if r {
            assert(x@ =~= y@);
        }
    }
    r
}

/// Whether two values are the same value of the same kind.
pub fn same_value(a: &FieldValue, b: &FieldValue) -> (r: bool)
    ensures
        r == (a.model() == b.model()),
{
    match (a, b) {
        (FieldValue::String(x), FieldValue::String(y)) => str_eq(x.as_str(), y.as_str()),
        (FieldValue::Short(x), FieldValue::Short(y)) => *x == *y,
        (FieldValue::Long(x), FieldValue::Long(y)) => *x == *y,
        (FieldValue::Enum(x), FieldValue::Enum(y)) => *x == *y,
        (FieldValue::Char(x), FieldValue::Char(y)) => *x == *y,
        (FieldValue::ShortArray(x), FieldValue::ShortArray(y)) => same_ints_i16(x, y),
        (FieldValue::LongArray(x), FieldValue::LongArray(y)) => same_ints_i32(x, y),
        (FieldValue::EnumArray(x), FieldValue::EnumArray(y)) => same_ints_u16(x, y),
        (FieldValue::CharArray(x), FieldValue::CharArray(y)) => same_ints_u8(x, y),
        _ => false,
    }
}

/// `s[i..]` with every `ab` pair replaced by `to`, scanning left to right
/// (`str::replace` for a two-character pattern), after `acc`.
pub open spec fn replace_pair_from(s: Seq<char>, i: int, a: char, b: char, to: char, acc: Seq<char>) -> Seq<char>
    decreases s.len() - i,
{
    if i < 0 || i >= s.len() {
        acc
    } else if i + 1 < s.len() && s[i] == a && s[i + 1] == b {
        replace_pair_from(s, i + 2, a, b, to, acc.push(to))
    } else {
        replace_pair_from(s, i + 1, a, b, to, acc.push(s[i]))
    }
}

pub open spec fn replace_pair(s: Seq<char>, a: char, b: char, to: char) -> Seq<char> {
    replace_pair_from(s, 0, a, b, to, seq![])
}

/// The text of a quoted save value without its escapes.
pub open spec fn unescape_save(inner: Seq<char>) -> Seq<char> {
    replace_pair(replace_pair(inner, '\\', '"', '"'), '\\', '\\', '\\')
}

fn replace_pair_exec(s: &Vec<char>, a: char, b: char, to: char) -> (r: Vec<char>)
    ensures
        r@ == replace_pair(s@, a, b, to),
{
    let mut r: Vec<char> = Vec::new();
    let mut i: usize = 0;
    while i < s.len()
        invariant
            i <= s.len(),
            replace_pair(s@, a, b, to) == replace_pair_from(s@, i as int, a, b, to, r@),
        decreases s.len() - i,
    {
        if i + 1 < s.len() && s[i] == a && s[i + 1] == b {
            r.push(to);
            i = i + 2;
        } else {
            r.push(s[i]);
            i = i + 1;
        }
    }
    r
}

/// `s` without all leading `c`.
pub open spec fn strip_left_all(s: Seq<char>, c: char) -> Seq<char>
    decreases s.len(),
{
    if s.len() > 0 && s[0] == c {
        strip_left_all(s.drop_first(), c)
    } else {
        s
    }
}

/// `s` without all trailing `c`.
pub open spec fn strip_right_all(s: Seq<char>, c: char) -> Seq<char>
    decreases s.len(),
{
    if s.len() > 0 && s.last() == c {
        strip_right_all(s.drop_last(), c)
    } else {
        s
    }
}

/// The integers of comma-separated fields `fs[k..]`, after `acc`; `None`
/// when a field does not read as an integer of the range.
pub open spec fn ints_from(fs: Seq<Seq<char>>, k: int, signed: bool, min: int, max: int, acc: Seq<int>) -> Option<Seq<int>>
    decreases fs.len() - k,
{
    if k < 0 || k >= fs.len() {
        Some(acc)
    } else {
        match int_of(trim(fs[k]), signed, min, max) {
            None => None,
            Some(v) => ints_from(fs, k + 1, signed, min, max, acc.push(v)),
        }
    }
}

/// The integers of a bracketed save array `[a,b,c]`.
pub open spec fn array_of(t: Seq<char>, signed: bool, min: int, max: int) -> Option<Seq<int>> {
    let inner = strip_right_all(strip_left_all(t, '['), ']');
    if inner.len() == 0 {
        Some(seq![])
    } else {
        ints_from(split_from(inner, 0, ','), 0, signed, min, max, seq![])
    }
}

/// The value a save text denotes for the kind of `template`.
pub open spec fn save_value_of(s: Seq<char>, template: FieldValue) -> Option<ValueModel> {
    let t = trim(s);
    match template {
        FieldValue::String(_) => if t.len() >= 2 && t[0] == '"' && t.last() == '"' {
            Some(ValueModel::String(unescape_save(t.subrange(1, t.len() - 1))))
        } else {
            Some(ValueModel::String(t))
        },
        FieldValue::Short(_) => match int_of(t, true, -32768, 32767) {
            Some(v) => Some(ValueModel::Short(v)),
            None => None,
        },
        FieldValue::Long(_) => match int_of(t, true, -2147483648, 2147483647) {
            Some(v) => Some(ValueModel::Long(v)),
            None => None,
        },
        FieldValue::Enum(_) => match int_of(t, false, 0, 65535) {
            Some(v) => Some(ValueModel::Enum(v)),
            None => None,
        },
        FieldValue::Char(_) => match int_of(t, false, 0, 255) {
            Some(v) => Some(ValueModel::Char(v)),
            None => None,
        },
        FieldValue::ShortArray(_) => match array_of(t, true, -32768, 32767) {
            Some(v) => Some(ValueModel::ShortArray(v)),
            None => None,
        },
        FieldValue::LongArray(_) => match array_of(t, true, -2147483648, 2147483647) {
            Some(v) => Some(ValueModel::LongArray(v)),
            None => None,
        },
        FieldValue::EnumArray(_) => match array_of(t, false, 0, 65535) {
            Some(v) => Some(ValueModel::EnumArray(v)),
            None => None,
        },
        FieldValue::CharArray(_) => match array_of(t, false, 0, 255) {
            Some(v) => Some(ValueModel::CharArray(v)),
            None => None,
        },
    }
}

/// Reads the bracketed array `t` as integers of the range `min..=max`.
fn parse_array_ints(t: &Vec<char>, signed: bool, min: i64, max: i64) -> (r: Option<Vec<i64>>)
    requires
        -0xFFFF_FFFF_FFFF <= min <= 0,
        0 <= max <= 0xFFFF_FFFF_FFFF,
    ensures
        match r {
            Some(v) => array_of(t@, signed, min as int, max as int) == Some(Seq::new(v@.len(), |i: int| v@[i] as int))
                && forall|i: int| 0 <= i < v@.len() ==> min <= #[trigger] v@[i] <= max,
            None => array_of(t@, signed, min as int, max as int) is None,
        },
{
    let mut lo: usize = 0;
    assert(t@.subrange(0, t.len() as int) =~= t@);
    while lo < t.len() && t[lo] == '['
        invariant
            lo <= t.len(),
            strip_left_all(t@, '[') == strip_left_all(t@.subrange(lo as int, t.len() as int), '['),
        decreases t.len() - lo,
    {
        assert(t@.subrange(lo as int, t.len() as int).drop_first() =~= t@.subrange(lo + 1, t.len() as int));
        lo = lo + 1;
    }
    let mut hi: usize = t.len();
    assert(t@.subrange(lo as int, t.len() as int).subrange(0, (hi - lo) as int) =~= t@.subrange(lo as int, hi as int));
    proof {
        let u = t@.subrange(lo as int, t.len() as int);
        if u.len() > 0 {
            assert(u[0] == t@[lo as int]);
        }
        assert(strip_left_all(u, '[') == u);
    }
    while hi > lo && t[hi - 1] == ']'
        invariant
            lo <= hi <= t.len(),
            strip_right_all(strip_left_all(t@, '['), ']') == strip_right_all(t@.subrange(lo as int, hi as int), ']'),
        decreases hi - lo,
    {
        assert(t@.subrange(lo as int, hi as int).drop_last() =~= t@.subrange(lo as int, hi - 1));
        hi = hi - 1;
    }
    proof {
        let w = t@.subrange(lo as int, hi as int);
        if w.len() > 0 {
            assert(w.last() == t@[hi - 1]);
        }
        assert(strip_right_all(w, ']') == w);
    }
    let inner = sub_vec(t, lo, hi);
    let mut out: Vec<i64> = Vec::new();
    if inner.len() == 0 {
        assert(Seq::new(out@.len(), |i: int| out@[i] as int) =~= Seq::<int>::empty());
        return Some(out);
    }
    let ghost fs = split_from(inner@, 0, ',');
    let ghost mut done: Seq<Seq<char>> = seq![];
    let mut start: usize = 0;
    assert(Seq::new(out@.len(), |i: int| out@[i] as int) =~= Seq::<int>::empty());
    loop
        invariant
            start <= inner.len(),
            -0xFFFF_FFFF_FFFF <= min <= 0,
            0 <= max <= 0xFFFF_FFFF_FFFF,
            inner@.len() > 0,
            inner@ == strip_right_all(strip_left_all(t@, '['), ']'),
            fs == split_from(inner@, 0, ','),
            fs == done + split_from(inner@, start as int, ','),
            ints_from(fs, 0, signed, min as int, max as int, seq![]) == ints_from(
                fs,
                done.len() as int,
                signed,
                min as int,
                max as int,
                Seq::new(out@.len(), |i: int| out@[i] as int),
            ),
            forall|i: int| 0 <= i < out@.len() ==> min <= #[trigger] out@[i] <= max,
        decreases inner.len() - start,
    {
        let e = find_char(&inner, start, ',');
        proof {
            crate::text::lemma_find_from(inner@, start as int, ',');
        }
        let ghost field = inner@.subrange(start as int, e as int);
        proof {
            if e >= inner.len() {
                assert(split_from(inner@, start as int, ',') =~= seq![field]);
            } else {
                assert(split_from(inner@, start as int, ',') =~= seq![field] + split_from(inner@, e + 1, ','));
            }
            assert(fs[done.len() as int] == field);
        }
        let (a, b) = trim_bounds(&inner, start, e);
        let ghost old_out = out@;
        match parse_int(&inner, a, b, signed, min, max) {
            None => return None,
            Some(v) => {
                out.push(v);
                assert(Seq::new(out@.len(), |i: int| out@[i] as int) =~= Seq::new(old_out.len(), |i: int| old_out[i] as int).push(v as int));
            },
        }
        proof {
            done = done.push(field);
        }
        if e >= inner.len() {
            assert(done =~= fs);
            return Some(out);
        }
        assert(fs =~= done + split_from(inner@, e + 1, ','));
        start = e + 1;
    }
}

/// Parse a save file value string back to a value of the template's kind.
pub fn parse_save_value(s: &str, template: &FieldValue) -> (r: Option<FieldValue>)
    ensures
        match r {
            Some(v) => save_value_of(s@, *template) == Some(v.model()),
            None => save_value_of(s@, *template) is None,
        },
{
    let t = trim_vec(&chars_of(s));
    match template {
        FieldValue::String(_) => {
            if t.len() >= 2 && t[0] == '"' && t[t.len() - 1] == '"' {
                let inner = sub_vec(&t, 1, t.len() - 1);
                let a = replace_pair_exec(&inner, '\\', '"', '"');
                let b = replace_pair_exec(&a, '\\', '\\', '\\');
                Some(FieldValue::String(string_of_vec(&b)))
            } else {
                Some(FieldValue::String(string_of_vec(&t)))
            }
        },
        FieldValue::Short(_) => match parse_int(&t, 0, t.len(), true, -32768, 32767) {
            Some(v) => {
                assert(t@.subrange(0, t@.len() as int) =~= t@);
                Some(FieldValue::Short(v as i16))
            },
            None => {
                assert(t@.subrange(0, t@.len() as int) =~= t@);
                None
            },
        },
        FieldValue::Long(_) => match parse_int(&t, 0, t.len(), true, -2147483648, 2147483647) {
            Some(v) => {
                assert(t@.subrange(0, t@.len() as int) =~= t@);
                Some(FieldValue::Long(v as i32))
            },
            None => {
                assert(t@.subrange(0, t@.len() as int) =~= t@);
                None
            },
        },
        FieldValue::Enum(_) => match parse_int(&t, 0, t.len(), false, 0, 65535) {
            Some(v) => {
                assert(t@.subrange(0, t@.len() as int) =~= t@);
                Some(FieldValue::Enum(v as u16))
            },
            None => {
                assert(t@.subrange(0, t@.len() as int) =~= t@);
                None
            },
        },
        FieldValue::Char(_) => match parse_int(&t, 0, t.len(), false, 0, 255) {
            Some(v) => {
                assert(t@.subrange(0, t@.len() as int) =~= t@);
                Some(FieldValue::Char(v as u8))
            },
            None => {
                assert(t@.subrange(0, t@.len() as int) =~= t@);
                None
            },
        },
        FieldValue::ShortArray(_) => match parse_array_ints(&t, true, -32768, 32767) {
            Some(v) => {
                let mut w: Vec<i16> = Vec::new();
                let mut i: usize = 0;
                while i < v.len()
                    invariant
                        i <= v@.len(),
                        w@.len() == i,
                        forall|j: int| 0 <= j < v@.len() ==> -32768 <= #[trigger] v@[j] <= 32767,
                        forall|j: int| 0 <= j < i ==> w@[j] as int == v@[j] as int,
                    decreases v.len() - i,
                {
                    w.push(v[i] as i16);
                    i = i + 1;
                }
                assert(ints_i16(w@) =~= Seq::new(v@.len(), |i: int| v@[i] as int));
                Some(FieldValue::ShortArray(w))
            },
            None => None,
        },
        FieldValue::LongArray(_) => match parse_array_ints(&t, true, -2147483648, 2147483647) {
            Some(v) => {
                let mut w: Vec<i32> = Vec::new();
                let mut i: usize = 0;
                while i < v.len()
                    invariant
                        i <= v@.len(),
                        w@.len() == i,
                        forall|j: int| 0 <= j < v@.len() ==> -2147483648 <= #[trigger] v@[j] <= 2147483647,
                        forall|j: int| 0 <= j < i ==> w@[j] as int == v@[j] as int,
                    decreases v.len() - i,
                {
                    w.push(v[i] as i32);
                    i = i + 1;
                }
                assert(ints_i32(w@) =~= Seq::new(v@.len(), |i: int| v@[i] as int));
                Some(FieldValue::LongArray(w))
            },
            None => None,
        },
        FieldValue::EnumArray(_) => match parse_array_ints(&t, false, 0, 65535) {
            Some(v) => {
                let mut w: Vec<u16> = Vec::new();
                let mut i: usize = 0;
                while i < v.len()
                    invariant
                        i <= v@.len(),
                        w@.len() == i,
                        forall|j: int| 0 <= j < v@.len() ==> 0 <= #[trigger] v@[j] <= 65535,
                        forall|j: int| 0 <= j < i ==> w@[j] as int == v@[j] as int,
                    decreases v.len() - i,
                {
                    w.push(v[i] as u16);
                    i = i + 1;
                }
                assert(ints_u16(w@) =~= Seq::new(v@.len(), |i: int| v@[i] as int));
                Some(FieldValue::EnumArray(w))
            },
            None => None,
        },
        FieldValue::CharArray(_) => match parse_array_ints(&t, false, 0, 255) {
            Some(v) => {
                let mut w: Vec<u8> = Vec::new();
                let mut i: usize = 0;
                while i < v.len()
                    invariant
                        i <= v@.len(),
                        w@.len() == i,
                        forall|j: int| 0 <= j < v@.len() ==> 0 <= #[trigger] v@[j] <= 255,
                        forall|j: int| 0 <= j < i ==> w@[j] as int == v@[j] as int,
                    decreases v.len() - i,
                {
                    w.push(v[i] as u8);
                    i = i + 1;
                }
                assert(ints_u8(w@) =~= Seq::new(v@.len(), |i: int| v@[i] as int));
                Some(FieldValue::CharArray(w))
            },
            None => None,
        },
    }
}

// ---------------------------------------------------------------------
// Reading back what was written
// ---------------------------------------------------------------------
/// A PV name a save file keeps: non-empty, without whitespace, and not
/// starting like a comment.
pub open spec fn savable_name(n: Seq<char>) -> bool {
    n.len() > 0 && n[0] != '#' && forall|k: int| 0 <= k < n.len() ==> !is_white(#[trigger] n[k])
}

/// A value text a save-file line keeps: non-empty, without a newline, and
/// not ending in whitespace.
pub open spec fn savable_value(v: Seq<char>) -> bool {
    v.len() > 0 && !is_white(v.last()) && forall|k: int| 0 <= k < v.len() ==> #[trigger] v[k] != '\n'
}

/// An entry whose line reads back as itself: a savable name, and for a
/// connected PV a savable value on a line that is no C `@array@` line.
pub open spec fn savable_entry(e: SaveModel) -> bool {
    savable_name(e.pv_name) && (e.connected ==> savable_value(e.value) && c_array_line(entry_line(e)) is None)
}

/// A timestamp as the header carries it: digits, `-`, `:` and spaces,
/// ending in a digit.
pub open spec fn stamp_text(ts: Seq<char>) -> bool {
    ts.len() > 0 && is_ascii_digit(ts.last())
        && forall|k: int| 0 <= k < ts.len() ==> (is_ascii_digit(#[trigger] ts[k]) || ts[k] == '-' || ts[k] == ':' || ts[k] == ' ')
}

/// What reading gives back of a written entry: the entry itself, without
/// the value of a PV that did not answer.
pub open spec fn read_back(e: SaveModel) -> SaveModel {
    if e.connected {
        e
    } else {
        SaveModel { value: Seq::empty(), ..e }
    }
}

/// The header line of a save file.
pub open spec fn header_line(ts: Seq<char>) -> Seq<char> {
    "# "@ + "autosave-rs V1.0"@ + "\t"@ + ts
}

proof fn lemma_trim_same(t: Seq<char>)
    requires
        t.len() > 0,
        !is_white(t[0]),
        !is_white(t.last()),
    ensures
        trim(t) == t,
{
}

proof fn lemma_no_open_paren(s: Seq<char>, i: int, p: Seq<char>)
    requires
        0 <= i <= s.len(),
        p.len() > 0,
        p[0] == '(',
        forall|k: int| 0 <= k < s.len() ==> #[trigger] s[k] != '(',
    ensures
        find_sub_from(s, i, p) == s.len(),
    decreases s.len() - i,
{
    if i < s.len() {
        if has_prefix_at(s, i, p) {
            assert(s.subrange(i, i + p.len())[0] == s[i]);
        }
        lemma_no_open_paren(s, i + 1, p);
    }
}

proof fn lemma_find_sub_before(s: Seq<char>, i: int, j: int, p: Seq<char>)
    requires
        0 <= i <= j < s.len(),
        has_prefix_at(s, j, p),
    ensures
        find_sub_from(s, i, p) <= j,
    decreases j - i,
{
    if i < j && !has_prefix_at(s, i, p) {
        lemma_find_sub_before(s, i + 1, j, p);
    }
}

proof fn lemma_field_end_at(t: Seq<char>, i: int, j: int)
    requires
        0 <= i <= j < t.len(),
        t[j] == '\t',
        forall|k: int| i <= k < j ==> t[k] != '\t' && t[k] != ' ',
    ensures
        field_end(t, i) == j,
    decreases j - i,
{
    if i < j {
        lemma_field_end_at(t, i + 1, j);
    }
}

/// The lines of the entry lines followed by `tail`.
proof fn lemma_entry_lines(v: Seq<SaveModel>, tail: Seq<char>)
    requires
        forall|i: int| 0 <= i < v.len() ==> savable_entry(#[trigger] v[i]),
    ensures
        lines(entry_lines(v) + tail) == Seq::new(v.len(), |i: int| entry_line(v[i])) + lines(tail),
    decreases v.len(),
{
    if v.len() > 0 {
        let e = v.last();
        let l = entry_line(e);
        reveal_strlit(" ");
        reveal_strlit("#");
        reveal_strlit("\t(not connected)");
        assert forall|k: int| 0 <= k < l.len() implies l[k] != '\n' by {
            if e.connected {
                if k < e.pv_name.len() {
                    assert(l[k] == e.pv_name[k]);
                } else if k > e.pv_name.len() {
                    assert(l[k] == e.value[k - e.pv_name.len() - 1]);
                }
            } else {
                if 1 <= k < e.pv_name.len() + 1 {
                    assert(l[k] == e.pv_name[k - 1]);
                }
            }
        }
        lemma_lines_cons(l, tail);
        assert(!is_white(l.last())) by {
            if e.connected {
                assert(l.last() == e.value.last());
            }
        }
        assert(strip_cr(l) == l);
        assert(entry_lines(v) + tail =~= entry_lines(v.drop_last()) + (l + "\n"@ + tail));
        lemma_entry_lines(v.drop_last(), l + "\n"@ + tail);
        assert(Seq::new(v.len(), |i: int| entry_line(v[i])) =~= Seq::new(v.drop_last().len(), |i: int| entry_line(v.drop_last()[i])).push(l));
    }
}

/// The lines of a written save file: the header, one line per entry, and
/// the `<END>` marker.
proof fn lemma_save_lines(ts: Seq<char>, v: Seq<SaveModel>)
    requires
        stamp_text(ts),
        forall|i: int| 0 <= i < v.len() ==> savable_entry(#[trigger] v[i]),
    ensures
        lines(save_file_content(ts, v)) == seq![header_line(ts)] + Seq::new(v.len(), |i: int| entry_line(v[i])) + seq!["<END>"@],
{
    reveal_strlit("# ");
    reveal_strlit("autosave-rs V1.0");
    reveal_strlit("\t");
    reveal_strlit("<END>");
    reveal_strlit("\n");
    let h = header_line(ts);
    let end_tail = "<END>"@ + "\n"@;
    assert(save_file_content(ts, v) =~= h + "\n"@ + (entry_lines(v) + end_tail));
    assert forall|k: int| 0 <= k < h.len() implies h[k] != '\n' by {
        if k >= 19 {
            assert(h[k] == ts[k - 19]);
        }
    }
    lemma_lines_cons(h, entry_lines(v) + end_tail);
    assert(strip_cr(h) == h) by {
        assert(h.last() == ts.last());
    }
    lemma_entry_lines(v, end_tail);
    assert(end_tail =~= "<END>"@ + "\n"@ + Seq::<char>::empty());
    lemma_lines_cons("<END>"@, Seq::<char>::empty());
    assert(lines(Seq::<char>::empty()) =~= Seq::<Seq<char>>::empty());
    assert(strip_cr("<END>"@) == "<END>"@);
}

/// Reading the entry lines from `base` on gives back the entries.
proof fn lemma_read_entries(ls: Seq<Seq<char>>, base: int, v: Seq<SaveModel>, i: int, acc: Seq<SaveModel>)
    requires
        0 <= base,
        0 <= i <= v.len(),
        base + v.len() < ls.len(),
        forall|k: int| 0 <= k < v.len() ==> savable_entry(#[trigger] v[k]),
        forall|k: int| 0 <= k < v.len() ==> #[trigger] ls[base + k] == entry_line(v[k]),
        ls[base + v.len()] == "<END>"@,
    ensures
        save_lines_from(ls, base + i, acc) == acc + Seq::new((v.len() - i) as nat, |k: int| read_back(v[i + k])),
    decreases v.len() - i,
{
    reveal_strlit("<END>");
    reveal_strlit(" ");
    reveal_strlit("#");
    reveal_strlit("\t(not connected)");
    reveal_strlit("(not connected)");
    if i == v.len() {
        assert(trim(ls[base + i]) == ls[base + i]);
        assert(acc + Seq::new(0, |k: int| read_back(v[i + k])) =~= acc);
    } else {
        let e = v[i];
        let l = entry_line(e);
        assert(ls[base + i] == l);
        let n = e.pv_name;
        if e.connected {
            assert(l.last() == e.value.last());
            assert(l[0] == n[0]);
            lemma_trim_same(l);
            assert(l[n.len() as int] == ' ');
            assert(l != "<END>"@) by {
                if l == "<END>"@ {
                    assert(n.len() < 5);
                    assert("<END>"@[n.len() as int] != ' ');
                }
            }
            assert forall|k: int| 0 <= k < n.len() implies l[k] != ' ' by {
                assert(l[k] == n[k]);
            }
            lemma_find_from_skip(l, 0, n.len() as int, ' ');
            assert(find_from(l, 0, ' ') == n.len());
            assert(l.subrange(0, n.len() as int) =~= n);
            assert(l.subrange(n.len() + 1int, l.len() as int) =~= e.value);
        } else {
            assert(l.last() == ')');
            assert(l[0] == '#');
            lemma_trim_same(l);
            let inner = l.drop_first();
            assert(inner =~= n + "\t(not connected)"@);
            assert(has_prefix_at(inner, n.len() + 1int, "(not connected)"@)) by {
                assert(inner.subrange(n.len() + 1int, n.len() + 16int) =~= "(not connected)"@);
            }
            lemma_find_sub_before(inner, 0, n.len() + 1int, "(not connected)"@);
            assert forall|k: int| 0 <= k < n.len() implies inner[k] != '\t' && inner[k] != ' ' by {
                assert(inner[k] == n[k]);
            }
            lemma_field_end_at(inner, 0, n.len() as int);
            assert(first_field(inner) =~= n);
            lemma_trim_same(n);
        }
        lemma_read_entries(ls, base, v, i + 1, acc.push(read_back(e)));
        assert(acc.push(read_back(e)) + Seq::new((v.len() - (i + 1)) as nat, |k: int| read_back(v[i + 1 + k]))
            =~= acc + Seq::new((v.len() - i) as nat, |k: int| read_back(v[i + k])));
    }
}

/// Reading a written save file gives back its entries (a PV that did not
/// answer comes back without a value), and the file passes the `<END>`
/// check.
pub proof fn save_file_round_trip(ts: Seq<char>, v: Seq<SaveModel>)
    requires
        stamp_text(ts),
        forall|i: int| 0 <= i < v.len() ==> savable_entry(#[trigger] v[i]),
    ensures
        save_content(save_file_content(ts, v)) == Seq::new(v.len(), |i: int| read_back(v[i])),
        ends_with_marker(lines(save_file_content(ts, v))),
{
    reveal_strlit("# ");
    reveal_strlit("autosave-rs V1.0");
    reveal_strlit("\t");
    reveal_strlit("<END>");
    reveal_strlit("(not connected)");
    lemma_save_lines(ts, v);
    let ls = lines(save_file_content(ts, v));
    let h = header_line(ts);
    assert(ls[0] == h);
    assert forall|k: int| 0 <= k < v.len() implies #[trigger] ls[1 + k] == entry_line(v[k]) by {}
    assert(ls[1 + v.len() as int] == "<END>"@);
    assert(h[0] == '#');
    assert(h.last() == ts.last());
    lemma_trim_same(h);
    let inner = h.drop_first();
    assert forall|k: int| 0 <= k < inner.len() implies #[trigger] inner[k] != '(' by {
        if k >= 18 {
            assert(inner[k] == ts[k - 18]);
        }
    }
    lemma_no_open_paren(inner, 0, "(not connected)"@);
    assert(h != "<END>"@) by {
        assert("<END>"@[0] == '<');
    }
    lemma_read_entries(ls, 1, v, 0, Seq::empty());
    assert(Seq::<SaveModel>::empty() + Seq::new((v.len() - 0) as nat, |k: int| read_back(v[0 + k])) =~= Seq::new(v.len(), |i: int| read_back(v[i])));
    assert(ls.last() == "<END>"@);
}


proof fn int_value_round_trip(v: FieldValue)
    requires
        v is Short || v is Long || v is Enum || v is Char,
    ensures
        save_value_of(save_text(v), v) == Some(v.model()),
{
    let x: int = match v {
        FieldValue::Short(x) => x as int,
        FieldValue::Long(x) => x as int,
        FieldValue::Enum(x) => x as int,
        FieldValue::Char(x) => x as int,
        _ => 0,
    };
    let (signed, min, max) = match v {
        FieldValue::Short(_) => (true, -32768int, 32767int),
        FieldValue::Long(_) => (true, -2147483648int, 2147483647int),
        FieldValue::Enum(_) => (false, 0int, 65535int),
        _ => (false, 0int, 255int),
    };
    decimal_round_trip(x, signed, min, max);
    let t = signed_decimal(x);
    assert(!is_white(t[0]));
    assert(!is_white(t[t.len() - 1]));
    lemma_trim_same(t);
    assert(save_text(v) == t);
}


/// The escaped form of one character.
pub open spec fn escaped_char(c: char) -> Seq<char> {
    if c == '\\' {
        seq!['\\', '\\']
    } else if c == '"' {
        seq!['\\', '"']
    } else {
        seq![c]
    }
}

/// `s` with each backslash doubled: what is left of an escaped string
/// once its quotes are unescaped.
pub open spec fn doubled_backslashes(s: Seq<char>) -> Seq<char>
    decreases s.len(),
{
    if s.len() == 0 {
        seq![]
    } else {
        (if s[0] == '\\' { seq!['\\', '\\'] } else { seq![s[0]] }) + doubled_backslashes(s.drop_first())
    }
}

proof fn lemma_escape_front(s: Seq<char>)
    requires
        s.len() > 0,
    ensures
        escape_save(s) == escaped_char(s[0]) + escape_save(s.drop_first()),
    decreases s.len(),
{
    if s.len() == 1 {
        assert(s.drop_last() =~= Seq::<char>::empty());
        assert(s.drop_first() =~= Seq::<char>::empty());
        assert(escape_save(s) == escape_save(s.drop_last()) + escaped_char(s.last()));
    } else {
        let d = s.drop_last();
        lemma_escape_front(d);
        assert(d.drop_first() =~= s.drop_first().drop_last());
        assert(s.drop_first().last() == s.last());
        assert(escape_save(s) == escape_save(d) + escaped_char(s.last()));
        assert(escape_save(s.drop_first()) == escape_save(s.drop_first().drop_last()) + escaped_char(s.last()));
        assert(escape_save(s) =~= escaped_char(s[0]) + escape_save(s.drop_first()));
    }
}

proof fn lemma_replace_shift(a: Seq<char>, r: Seq<char>, j: int, x: char, y: char, to: char, acc: Seq<char>)
    requires
        0 <= j,
    ensures
        replace_pair_from(a + r, a.len() + j, x, y, to, acc) == replace_pair_from(r, j, x, y, to, acc),
    decreases r.len() - j,
{
    let w = a + r;
    let i = a.len() + j;
    if j < r.len() {
        assert(w[i] == r[j]);
        if j + 1 < r.len() {
            assert(w[i + 1] == r[j + 1]);
        }
        lemma_replace_shift(a, r, j + 1, x, y, to, acc.push(r[j]));
        if j + 1 < r.len() {
            lemma_replace_shift(a, r, j + 2, x, y, to, acc.push(to));
        }
    }
}

proof fn lemma_unquote_pass(s: Seq<char>, acc: Seq<char>)
    ensures
        replace_pair_from(escape_save(s), 0, '\\', '"', '"', acc) == acc + doubled_backslashes(s),
    decreases s.len(),
{
    if s.len() == 0 {
        assert(acc + doubled_backslashes(s) =~= acc);
    } else {
        let c = s[0];
        let rest = s.drop_first();
        lemma_escape_front(s);
        let e = escaped_char(c);
        let r = escape_save(rest);
        let w = e + r;
        if rest.len() > 0 {
            lemma_escape_front(rest);
            assert(r[0] == escaped_char(rest[0])[0]);
            assert(r[0] != '"');
        }
        if c == '\\' {
            assert(w[0] == '\\' && w[1] == '\\');
            if r.len() > 0 {
                assert(w[2] == r[0]);
            }
            lemma_replace_shift(e, r, 0, '\\', '"', '"', acc.push('\\').push('\\'));
            assert(replace_pair_from(w, 1, '\\', '"', '"', acc.push('\\'))
                == replace_pair_from(w, 2, '\\', '"', '"', acc.push('\\').push('\\')));
            assert(replace_pair_from(w, 0, '\\', '"', '"', acc)
                == replace_pair_from(w, 1, '\\', '"', '"', acc.push('\\')));
            lemma_unquote_pass(rest, acc.push('\\').push('\\'));
            assert(acc.push('\\').push('\\') + doubled_backslashes(rest) =~= acc + doubled_backslashes(s));
        } else if c == '"' {
            assert(w[0] == '\\' && w[1] == '"');
            lemma_replace_shift(e, r, 0, '\\', '"', '"', acc.push('"'));
            assert(replace_pair_from(w, 0, '\\', '"', '"', acc)
                == replace_pair_from(w, 2, '\\', '"', '"', acc.push('"')));
            lemma_unquote_pass(rest, acc.push('"'));
            assert(acc.push('"') + doubled_backslashes(rest) =~= acc + doubled_backslashes(s));
        } else {
            assert(w[0] == c);
            lemma_replace_shift(e, r, 0, '\\', '"', '"', acc.push(c));
            assert(replace_pair_from(w, 0, '\\', '"', '"', acc)
                == replace_pair_from(w, 1, '\\', '"', '"', acc.push(c)));
            lemma_unquote_pass(rest, acc.push(c));
            assert(acc.push(c) + doubled_backslashes(rest) =~= acc + doubled_backslashes(s));
        }
    }
}

proof fn lemma_unbackslash_pass(s: Seq<char>, acc: Seq<char>)
    ensures
        replace_pair_from(doubled_backslashes(s), 0, '\\', '\\', '\\', acc) == acc + s,
    decreases s.len(),
{
    if s.len() == 0 {
        assert(acc + s =~= acc);
    } else {
        let c = s[0];
        let rest = s.drop_first();
        let e: Seq<char> = if c == '\\' { seq!['\\', '\\'] } else { seq![c] };
        let r = doubled_backslashes(rest);
        let w = e + r;
        assert(doubled_backslashes(s) == w);
        if c == '\\' {
            assert(w[0] == '\\' && w[1] == '\\');
            lemma_replace_shift(e, r, 0, '\\', '\\', '\\', acc.push('\\'));
        } else {
            assert(w[0] == c);
            lemma_replace_shift(e, r, 0, '\\', '\\', '\\', acc.push(c));
        }
        lemma_unbackslash_pass(rest, acc.push(c));
        assert(acc.push(c) + rest =~= acc + s);
    }
}

/// Unescaping the escaped form of a string gives the string back.
pub proof fn unescape_escape(s: Seq<char>)
    ensures
        unescape_save(escape_save(s)) == s,
{
    lemma_unquote_pass(s, seq![]);
    lemma_unbackslash_pass(s, seq![]);
    assert(Seq::<char>::empty() + doubled_backslashes(s) =~= doubled_backslashes(s));
    assert(Seq::<char>::empty() + s =~= s);
}

proof fn string_value_round_trip(v: FieldValue)
    requires
        v is String,
    ensures
        save_value_of(save_text(v), v) == Some(v.model()),
{
    let s = match v {
        FieldValue::String(s) => s@,
        _ => seq![],
    };
    let t = save_text(v);
    assert(t == seq!['"'] + escape_save(s) + seq!['"']);
    assert(t[0] == '"');
    assert(t.last() == '"');
    lemma_trim_same(t);
    assert(t.subrange(1, t.len() - 1) =~= escape_save(s));
    unescape_escape(s);
}


proof fn lemma_join_front(items: Seq<Seq<char>>)
    requires
        items.len() >= 2,
    ensures
        join_commas(items) == items[0] + seq![','] + join_commas(items.drop_first()),
    decreases items.len(),
{
    let d = items.drop_last();
    assert(join_commas(items) == join_commas(d) + seq![','] + items.last());
    if items.len() > 2 {
        lemma_join_front(d);
        let f = items.drop_first();
        assert(d.drop_first() =~= f.drop_last());
        assert(f.last() == items.last());
        assert(join_commas(f) == join_commas(f.drop_last()) + seq![','] + f.last());
    } else {
        assert(join_commas(d) == d[0]);
        assert(join_commas(items.drop_first()) == items.drop_first()[0]);
    }
    assert(join_commas(items) =~= items[0] + seq![','] + join_commas(items.drop_first()));
}

proof fn lemma_split_after(p: Seq<char>, b: Seq<char>, j: int, c: char)
    requires
        0 <= j <= b.len(),
    ensures
        split_from(p + b, p.len() + j, c) == split_from(b, j, c),
    decreases b.len() - j,
{
    let w = p + b;
    lemma_find_from_after(p, b, j, c);
    lemma_find_from(b, j, c);
    let e = find_from(b, j, c);
    if e >= b.len() {
        assert(w.subrange(p.len() + j, w.len() as int) =~= b.subrange(j, b.len() as int));
    } else {
        assert(w.subrange(p.len() + j, p.len() + e) =~= b.subrange(j, e));
        lemma_split_after(p, b, e + 1, c);
    }
}

/// Splitting comma-joined items that hold no comma gives the items back.
proof fn lemma_split_join(items: Seq<Seq<char>>)
    requires
        items.len() >= 1,
        forall|k: int, i: int| 0 <= k < items.len() && 0 <= i < items[k].len() ==> #[trigger] items[k][i] != ',',
    ensures
        split_from(join_commas(items), 0, ',') == items,
    decreases items.len(),
{
    let a = items[0];
    if items.len() == 1 {
        lemma_find_from(a, 0, ',');
        if find_from(a, 0, ',') < a.len() {
            assert(a[find_from(a, 0, ',')] == ',');
        }
        assert(a.subrange(0, a.len() as int) =~= a);
        assert(split_from(a, 0, ',') =~= items);
    } else {
        lemma_join_front(items);
        let f = items.drop_first();
        let r = join_commas(f);
        let q = a + seq![','];
        let w = q + r;
        assert forall|k: int| 0 <= k < a.len() implies w[k] != ',' by {
            assert(w[k] == items[0][k]);
        }
        lemma_find_from_skip(w, 0, a.len() as int, ',');
        assert(w[a.len() as int] == ',');
        lemma_find_from(w, 0, ',');
        assert(w.subrange(0, a.len() as int) =~= a);
        lemma_split_after(q, r, 0, ',');
        assert forall|k: int, i: int| 0 <= k < f.len() && 0 <= i < f[k].len() implies #[trigger] f[k][i] != ',' by {
            assert(f[k] == items[k + 1]);
        }
        lemma_split_join(f);
        assert(seq![a] + f =~= items);
    }
}

proof fn lemma_ints_from(fs: Seq<Seq<char>>, ints: Seq<int>, k: int, signed: bool, min: int, max: int, acc: Seq<int>)
    requires
        fs == decimals(ints),
        0 <= k <= fs.len(),
        forall|i: int| 0 <= i < ints.len() ==> min <= #[trigger] ints[i] <= max && (ints[i] < 0 ==> signed),
    ensures
        ints_from(fs, k, signed, min, max, acc) == Some(acc + ints.subrange(k, ints.len() as int)),
    decreases fs.len() - k,
{
    if k < fs.len() {
        let x = ints[k];
        decimal_round_trip(x, signed, min, max);
        let t = signed_decimal(x);
        assert(fs[k] == t);
        assert(!is_white(t[0]));
        assert(!is_white(t[t.len() - 1]));
        lemma_trim_same(t);
        lemma_ints_from(fs, ints, k + 1, signed, min, max, acc.push(x));
        assert(acc.push(x) + ints.subrange(k + 1, ints.len() as int) =~= acc + ints.subrange(k, ints.len() as int));
    } else {
        assert(acc + ints.subrange(k, ints.len() as int) =~= acc);
    }
}

proof fn array_round_trip(ints: Seq<int>, signed: bool, min: int, max: int)
    requires
        forall|i: int| 0 <= i < ints.len() ==> min <= #[trigger] ints[i] <= max && (ints[i] < 0 ==> signed),
    ensures
        trim(bracket_join(decimals(ints))) == bracket_join(decimals(ints)),
        array_of(bracket_join(decimals(ints)), signed, min, max) == Some(ints),
{
    let items = decimals(ints);
    let j = join_commas(items);
    let t = bracket_join(items);
    assert(t[0] == '[');
    assert(t.last() == ']');
    lemma_trim_same(t);
    assert(t.drop_first() =~= j + seq![']']);
    if ints.len() == 0 {
        assert(j.len() == 0);
        assert(strip_left_all(seq![']'], '[') == seq![']']);
        assert(seq![']'].drop_last() =~= Seq::<char>::empty());
        assert(strip_right_all(seq![']'], ']') == strip_right_all(Seq::<char>::empty(), ']'));
        assert(ints =~= seq![]);
    } else {
        assert forall|k: int| 0 <= k < items.len() implies #[trigger] items[k].len() > 0
            && (is_ascii_digit(items[k][0]) || items[k][0] == '-')
            && is_ascii_digit(items[k].last())
            && forall|i: int| 0 <= i < items[k].len() ==> items[k][i] != ',' by {
            decimal_round_trip(ints[k], signed, min, max);
        }
        assert forall|k: int, i: int| 0 <= k < items.len() && 0 <= i < items[k].len() implies #[trigger] items[k][i] != ',' by {
            assert(items[k].len() > 0);
        }
        if items.len() >= 2 {
            lemma_join_front(items);
            assert(j[0] == items[0][0]);
            assert(j == join_commas(items.drop_last()) + seq![','] + items.last());
        } else {
            assert(j == items[0]);
        }
        assert(j.last() == items.last().last());
        assert(j[0] != '[');
        assert((j + seq![']'])[0] == j[0]);
        assert(strip_left_all(t, '[') == strip_left_all(t.drop_first(), '['));
        assert(strip_left_all(j + seq![']'], '[') == j + seq![']']);
        assert(strip_left_all(t, '[') == j + seq![']']);
        assert((j + seq![']']).drop_last() =~= j);
        assert(strip_right_all(j + seq![']'], ']') == strip_right_all(j, ']'));
        assert(strip_right_all(j, ']') == j);
        lemma_split_join(items);
        lemma_ints_from(items, ints, 0, signed, min, max, seq![]);
        assert(Seq::<int>::empty() + ints.subrange(0, ints.len() as int) =~= ints);
    }
}

/// A value written in save-file form reads back, for a field of the same
/// kind, as the value it was.
pub proof fn value_round_trip(v: FieldValue)
    ensures
        save_value_of(save_text(v), v) == Some(v.model()),
{
    match v {
        FieldValue::String(_) => string_value_round_trip(v),
        FieldValue::Short(_) => int_value_round_trip(v),
        FieldValue::Long(_) => int_value_round_trip(v),
        FieldValue::Enum(_) => int_value_round_trip(v),
        FieldValue::Char(_) => int_value_round_trip(v),
        FieldValue::ShortArray(a) => array_round_trip(ints_i16(a@), true, -32768, 32767),
        FieldValue::LongArray(a) => array_round_trip(ints_i32(a@), true, -2147483648, 2147483647),
        FieldValue::EnumArray(a) => array_round_trip(ints_u16(a@), false, 0, 65535),
        FieldValue::CharArray(a) => array_round_trip(ints_u8(a@), false, 0, 255),
    }
}


/// The PV name read from an `@array@` line has no surrounding whitespace.
pub proof fn array_line_name_trimmed(t: Seq<char>)
    ensures
        c_array_line(t) matches Some(e) ==> (e.pv_name.len() == 0 || (!is_white(e.pv_name[0]) && !is_white(e.pv_name.last()))),
{
    let m = find_sub_from(t, 0, "@array@"@);
    if m < t.len() {
        let x = t.subrange(0, m);
        lemma_trim_left_no_lead(x);
        lemma_trim_right_no_trail(trim_left(x));
        let y = trim_left(x);
        if trim_right(y).len() > 0 {
            assert(trim_right(y)[0] == y[0]);
        }
    }
}

/// A line written as `NAME @array@ {...}`, for a name without `@` and
/// without surrounding whitespace, reads back as an entry for `NAME`.
pub proof fn array_line_reads_back_name(name: Seq<char>, body: Seq<char>)
    requires
        name.len() > 0,
        !is_white(name[0]),
        !is_white(name.last()),
        forall|i: int| 0 <= i < name.len() ==> #[trigger] name[i] != '@',
    ensures
        c_array_line(name + seq![' ', '@', 'a', 'r', 'r', 'a', 'y', '@', ' ', '{'] + body + seq!['}']) matches Some(e)
            && e.pv_name == name,
{
    reveal_strlit("@array@");
    reveal_strlit("{");
    reveal_strlit("}");
    let t = name + seq![' ', '@', 'a', 'r', 'r', 'a', 'y', '@', ' ', '{'] + body + seq!['}'];
    let n = name.len() as int;
    let pat = "@array@"@;
    assert(pat =~= seq!['@', 'a', 'r', 'r', 'a', 'y', '@']);
    assert(has_prefix_at(t, n + 1, pat)) by {
        assert(t.subrange(n + 1, n + 8) =~= pat);
    }
    lemma_no_marker_before(t, pat, 0, n);
    assert(find_sub_from(t, 0, pat) == n + 1);
    let x = t.subrange(0, n + 1);
    assert(x =~= name.push(' '));
    assert(trim_left(x) == x);
    assert(x.drop_last() =~= name);
    assert(trim_right(x) == trim_right(name));
    assert(trim_right(name) == name);
    let y = t.subrange(n + 8, t.len() as int);
    let z = seq!['{'] + body + seq!['}'];
    assert(y =~= seq![' '] + z);
    assert(y.drop_first() =~= z);
    assert(trim_left(y) == trim_left(z));
    assert(trim_left(z) == z);
    assert(trim_right(z) == z);
    assert(trim(y) == z);
    assert(z.subrange(0, 1) =~= "{"@);
    assert(z.subrange(z.len() - 1, z.len() as int) =~= "}"@);
}

proof fn lemma_no_marker_before(t: Seq<char>, pat: Seq<char>, i: int, n: int)
    requires
        0 <= i <= n + 1,
        n + 1 < t.len(),
        pat.len() > 0,
        pat[0] == '@',
        has_prefix_at(t, n + 1, pat),
        forall|k: int| 0 <= k <= n ==> #[trigger] t[k] != '@',
    ensures
        find_sub_from(t, i, pat) == n + 1,
    decreases n + 1 - i,
{
    if i <= n {
        assert(!has_prefix_at(t, i, pat)) by {
            if has_prefix_at(t, i, pat) {
                assert(t.subrange(i, i + pat.len())[0] == t[i]);
            }
        }
        lemma_no_marker_before(t, pat, i + 1, n);
    }
}

} // verus!
