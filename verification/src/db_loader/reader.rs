//! Readers for the pieces of the `.db` grammar, each following the spec-mode
//! function of the same piece in `grammar`.
use vstd::prelude::*;
use crate::db_loader::grammar::{
    cursor_ok, db_word_end, escape_text, expect_at, field_at, field_value_at, header_at,
    lemma_db_word_end, lemma_field_at, lemma_header_at, lemma_paren_skip, lemma_quoted_body,
    lemma_skip_blank, lemma_unquoted, paren_skip, quoted_at, quoted_body, skip_blank, unquoted,
    is_db_word_char, fail, DbFail,
};
use crate::error::CaError;
use crate::text::{
    char_is_ascii_alnum, find_char, lemma_find_from, push_all, push_str, string_of_vec, sub_vec,
    trim_vec,
};

verus! {

/// A cursor of the exec readers.
pub type Pos = (usize, usize, usize);

pub open spec fn pos_view(k: Pos) -> (int, int, int) {
    (k.0 as int, k.1 as int, k.2 as int)
}

/// The error at a line and column with a message.
pub fn parse_error(line: usize, column: usize, message: Vec<char>) -> (r: CaError)
    ensures
        r.model() == fail(line as int, column as int, message@),
{
    CaError::DbParseError { line, column, message: string_of_vec(&message) }
}

pub fn skip_blank_x(s: &Vec<char>, k: Pos) -> (r: Pos)
    requires
        s@.len() < usize::MAX,
        cursor_ok(pos_view(k), s@.len() as int),
    ensures
        pos_view(r) == skip_blank(s@, k.0 as int, k.1 as int, k.2 as int),
        cursor_ok(pos_view(r), s@.len() as int),
        k.0 <= r.0,
{
    let (mut p, mut l, mut c) = k;
    while p < s.len() && (s[p] == ' ' || s[p] == '\t' || s[p] == '\r' || s[p] == '\n' || s[p] == '#')
        invariant
            s@.len() < usize::MAX,
            k.0 <= p,
            cursor_ok((p as int, l as int, c as int), s@.len() as int),
            skip_blank(s@, k.0 as int, k.1 as int, k.2 as int) == skip_blank(s@, p as int, l as int, c as int),
        decreases s.len() - p,
    {
        if s[p] == '\n' {
            p = p + 1;
            l = l + 1;
            c = 1;
        } else if s[p] == '#' {
            let e = find_char(s, p + 1, '\n');
            proof {
                lemma_find_from(s@, p + 1, '\n');
            }
            p = e;
        } else {
            p = p + 1;
            c = c + 1;
        }
    }
    (p, l, c)
}

pub fn word_end_x(s: &Vec<char>, p: usize) -> (r: usize)
    requires
        p <= s.len(),
    ensures
        r == db_word_end(s@, p as int),
        p <= r <= s.len(),
{
    let mut q = p;
    while q < s.len() && (char_is_ascii_alnum(s[q]) || s[q] == '_')
        invariant
            p <= q <= s.len(),
            db_word_end(s@, p as int) == db_word_end(s@, q as int),
        decreases s.len() - q,
    {
        q = q + 1;
    }
    q
}

pub fn expect_x(s: &Vec<char>, p: usize, c: usize, ch: char, l: usize) -> (r: Result<(usize, usize), CaError>)
    requires
        p <= s.len() < usize::MAX,
        c <= p + 1,
    ensures
        match r {
            Ok((p2, c2)) => expect_at(s@, p as int, c as int, ch, l as int) == Ok::<(int, int), DbFail>((p2 as int, c2 as int)),
            Err(e) => expect_at(s@, p as int, c as int, ch, l as int) == Err::<(int, int), DbFail>(e.model()),
        },
{
    if p < s.len() && s[p] == ch {
        Ok((p + 1, c + 1))
    } else {
        let mut msg: Vec<char> = Vec::new();
        push_str(&mut msg, "expected '");
        msg.push(ch);
        push_str(&mut msg, "', got '");
        let ghost got_start = msg@.len();
        if p < s.len() {
            msg.push(s[p]);
        } else {
            push_str(&mut msg, "EOF");
        }
        push_str(&mut msg, "'");
        proof {
            let got = if 0 <= p < s@.len() { seq![s@[p as int]] } else { "EOF"@ };
            assert(msg@ =~= "expected '"@ + seq![ch] + "', got '"@ + got + "'"@);
        }
        Err(parse_error(l, c, msg))
    }
}

/// The text that an escape `\e` stands for, appended.
fn push_escape(out: &mut Vec<char>, e: char)
    ensures
        final(out)@ == old(out)@ + escape_text(e),
{
    if e == '"' {
        out.push('"');
    } else if e == '\\' {
        out.push('\\');
    } else if e == 'n' {
        out.push('\n');
    } else {
        out.push('\\');
        out.push(e);
    }
    assert(out@ =~= old(out)@ + escape_text(e));
}

pub fn quoted_x(s: &Vec<char>, k: Pos) -> (r: Result<(Vec<char>, Pos), CaError>)
    requires
        s@.len() < usize::MAX,
        cursor_ok(pos_view(k), s@.len() as int),
    ensures
        match r {
            Ok((v, k2)) => quoted_at(s@, k.0 as int, k.1 as int, k.2 as int) == Ok::<(Seq<char>, (int, int, int)), DbFail>((v@, pos_view(k2)))
                && cursor_ok(pos_view(k2), s@.len() as int) && k.0 < k2.0,
            Err(e) => quoted_at(s@, k.0 as int, k.1 as int, k.2 as int) == Err::<(Seq<char>, (int, int, int)), DbFail>(e.model()),
        },
{
    let (p0, l0, c0) = k;
    if !(p0 < s.len() && s[p0] == '"') {
        let mut msg: Vec<char> = Vec::new();
        push_str(&mut msg, "expected '\"'");
        return Err(parse_error(l0, c0, msg));
    }
    let mut p = p0 + 1;
    let mut l = l0;
    let mut c = c0 + 1;
    let mut acc: Vec<char> = Vec::new();
    proof {
        lemma_quoted_body(s@, p as int, l as int, c as int, acc@);
    }
    while p < s.len() && s[p] != '"'
        invariant
            s@.len() < usize::MAX,
            p0 < p <= s@.len(),
            cursor_ok((p as int, l as int, c as int), s@.len() as int),
            quoted_at(s@, p0 as int, l0 as int, c0 as int) == quoted_body(s@, p as int, l as int, c as int, acc@),
        decreases s.len() - p,
    {
        if s[p] == '\\' && p + 1 < s.len() {
            push_escape(&mut acc, s[p + 1]);
            p = p + 2;
            c = c + 2;
        } else if s[p] == '\n' {
            acc.push('\n');
            p = p + 1;
            l = l + 1;
            c = 1;
        } else {
            acc.push(s[p]);
            p = p + 1;
            c = c + 1;
        }
    }
    if p >= s.len() {
        let mut msg: Vec<char> = Vec::new();
        push_str(&mut msg, "unterminated string");
        return Err(parse_error(l, c, msg));
    }
    Ok((acc, (p + 1, l, c + 1)))
}

pub fn field_value_x(s: &Vec<char>, k: Pos) -> (r: Result<(Vec<char>, Pos), CaError>)
    requires
        s@.len() < usize::MAX,
        cursor_ok(pos_view(k), s@.len() as int),
    ensures
        match r {
            Ok((v, k2)) => field_value_at(s@, k.0 as int, k.1 as int, k.2 as int) == Ok::<(Seq<char>, (int, int, int)), DbFail>((v@, pos_view(k2)))
                && cursor_ok(pos_view(k2), s@.len() as int) && k.0 <= k2.0,
            Err(e) => field_value_at(s@, k.0 as int, k.1 as int, k.2 as int) == Err::<(Seq<char>, (int, int, int)), DbFail>(e.model()),
        },
{
    let (p0, l0, c0) = k;
    if p0 < s.len() && s[p0] == '"' {
        return quoted_x(s, k);
    }
    let mut p = p0;
    let mut l = l0;
    let mut c = c0;
    let mut acc: Vec<char> = Vec::new();
    while p < s.len() && s[p] != ')' && s[p] != ','
        invariant
            s@.len() < usize::MAX,
            p0 <= p <= s@.len(),
            cursor_ok((p as int, l as int, c as int), s@.len() as int),
            unquoted(s@, p0 as int, l0 as int, c0 as int, Seq::empty()) == unquoted(s@, p as int, l as int, c as int, acc@),
        decreases s.len() - p,
    {
        if s[p] == '\n' {
            acc.push('\n');
            p = p + 1;
            l = l + 1;
            c = 1;
        } else {
            acc.push(s[p]);
            p = p + 1;
            c = c + 1;
        }
    }
    Ok((trim_vec(&acc), (p, l, c)))
}

/// Passes over the rest of a parenthesised group whose `(` was just read.
pub fn paren_skip_x(s: &Vec<char>, k: Pos) -> (r: Pos)
    requires
        s@.len() < usize::MAX,
        cursor_ok(pos_view(k), s@.len() as int),
    ensures
        pos_view(r) == paren_skip(s@, k.0 as int, k.1 as int, k.2 as int, 1),
        cursor_ok(pos_view(r), s@.len() as int),
        k.0 <= r.0,
{
    let (mut p, mut l, mut c) = k;
    let mut d: usize = 1;
    while p < s.len() && d > 0
        invariant
            s@.len() < usize::MAX,
            k.0 <= p <= s@.len(),
            d <= p - k.0 + 1,
            cursor_ok((p as int, l as int, c as int), s@.len() as int),
            paren_skip(s@, k.0 as int, k.1 as int, k.2 as int, 1) == paren_skip(s@, p as int, l as int, c as int, d as int),
        decreases s.len() - p,
    {
        if s[p] == '(' {
            d = d + 1;
            c = c + 1;
        } else if s[p] == ')' {
            d = d - 1;
            c = c + 1;
        } else if s[p] == '\n' {
            l = l + 1;
            c = 1;
        } else {
            c = c + 1;
        }
        p = p + 1;
    }
    (p, l, c)
}

/// `(NAME, VALUE)` of a `field` entry, after the keyword.
pub fn field_x(s: &Vec<char>, k: Pos) -> (r: Result<(Vec<char>, Vec<char>, Pos), CaError>)
    requires
        s@.len() < usize::MAX,
        cursor_ok(pos_view(k), s@.len() as int),
    ensures
        match r {
            Ok((n, v, k2)) => field_at(s@, k.0 as int, k.1 as int, k.2 as int) == Ok::<(Seq<char>, Seq<char>, (int, int, int)), DbFail>((n@, v@, pos_view(k2)))
                && cursor_ok(pos_view(k2), s@.len() as int),
            Err(e) => field_at(s@, k.0 as int, k.1 as int, k.2 as int) == Err::<(Seq<char>, Seq<char>, (int, int, int)), DbFail>(e.model()),
        },
{
    let (p1, l1, c1) = skip_blank_x(s, k);
    let (p2, c2) = expect_x(s, p1, c1, '(', l1)?;
    let (p3, l3, c3) = skip_blank_x(s, (p2, l1, c2));
    let e = word_end_x(s, p3);
    let name = sub_vec(s, p3, e);
    let (p5, l5, c5) = skip_blank_x(s, (e, l3, c3 + (e - p3)));
    let (p6, c6) = expect_x(s, p5, c5, ',', l5)?;
    let (p7, l7, c7) = skip_blank_x(s, (p6, l5, c6));
    let (v, (p8, l8, c8)) = field_value_x(s, (p7, l7, c7))?;
    let (p9, l9, c9) = skip_blank_x(s, (p8, l8, c8));
    let (p10, c10) = expect_x(s, p9, c9, ')', l9)?;
    Ok((name, v, (p10, l9, c10)))
}

/// `(TYPE, "NAME") {` of a record, after the keyword.
pub fn header_x(s: &Vec<char>, k: Pos) -> (r: Result<(Vec<char>, Vec<char>, Pos), CaError>)
    requires
        s@.len() < usize::MAX,
        cursor_ok(pos_view(k), s@.len() as int),
    ensures
        match r {
            Ok((t, n, k2)) => header_at(s@, k.0 as int, k.1 as int, k.2 as int) == Ok::<(Seq<char>, Seq<char>, (int, int, int)), DbFail>((t@, n@, pos_view(k2)))
                && cursor_ok(pos_view(k2), s@.len() as int),
            Err(e) => header_at(s@, k.0 as int, k.1 as int, k.2 as int) == Err::<(Seq<char>, Seq<char>, (int, int, int)), DbFail>(e.model()),
        },
{
    let (p1, l1, c1) = skip_blank_x(s, k);
    let (p2, c2) = expect_x(s, p1, c1, '(', l1)?;
    let (p3, l3, c3) = skip_blank_x(s, (p2, l1, c2));
    let e = word_end_x(s, p3);
    let rtype = sub_vec(s, p3, e);
    let (p5, l5, c5) = skip_blank_x(s, (e, l3, c3 + (e - p3)));
    let (p6, c6) = expect_x(s, p5, c5, ',', l5)?;
    let (p7, l7, c7) = skip_blank_x(s, (p6, l5, c6));
    let (name, (p8, l8, c8)) = quoted_x(s, (p7, l7, c7))?;
    let (p9, l9, c9) = skip_blank_x(s, (p8, l8, c8));
    let (p10, c10) = expect_x(s, p9, c9, ')', l9)?;
    let (p11, l11, c11) = skip_blank_x(s, (p10, l9, c10));
    let (p12, c12) = expect_x(s, p11, c11, '{', l11)?;
    Ok((rtype, name, (p12, l11, c12)))
}

} // verus!
