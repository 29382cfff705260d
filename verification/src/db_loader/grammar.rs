//! The grammar of `.db` files, stated over a cursor of position, line and
//! column, as the loader reads it.
use vstd::prelude::*;
use crate::text::{find_from, is_ascii_alnum, lemma_find_from, trim};

verus! {

/// A place in the text: position, line and column.
pub type Cursor = (int, int, int);

/// Why a `.db` text was refused: where, and what was expected.
pub struct DbFail {
    pub line: int,
    pub column: int,
    pub message: Seq<char>,
}

/// A record definition as the text gives it.
pub struct RecordModel {
    pub record_type: Seq<char>,
    pub name: Seq<char>,
    pub fields: Seq<(Seq<char>, Seq<char>)>,
}

pub open spec fn fail(line: int, column: int, message: Seq<char>) -> DbFail {
    DbFail { line, column, message }
}

/// The cursor after the blanks, newlines and `#` comments at `p`.  A blank
/// moves the column on, a newline starts the next line at column 1, and a
/// comment is passed over up to its newline without moving the column.
pub open spec fn skip_blank(s: Seq<char>, p: int, l: int, c: int) -> Cursor
    decreases s.len() - p,
{
    if p < 0 || p >= s.len() {
        (p, l, c)
    } else if s[p] == ' ' || s[p] == '\t' || s[p] == '\r' {
        skip_blank(s, p + 1, l, c + 1)
    } else if s[p] == '\n' {
        skip_blank(s, p + 1, l + 1, 1)
    } else if s[p] == '#' {
        let e = find_from(s, p + 1, '\n');
        proof {
            lemma_find_from(s, p + 1, '\n');
        }
        skip_blank(s, e, l, c)
    } else {
        (p, l, c)
    }
}

/// Characters of a word: ASCII letters, digits and `_`.
pub open spec fn is_db_word_char(c: char) -> bool {
    is_ascii_alnum(c) || c == '_'
}

/// End of the word that starts at `p`.
pub open spec fn db_word_end(s: Seq<char>, p: int) -> int
    decreases s.len() - p,
{
    if p < 0 || p >= s.len() {
        p
    } else if is_db_word_char(s[p]) {
        db_word_end(s, p + 1)
    } else {
        p
    }
}

/// The character `ch` at `p`: position and column after it, or the error
/// naming what was found (`EOF` at the end).
pub open spec fn expect_at(s: Seq<char>, p: int, c: int, ch: char, l: int) -> Result<(int, int), DbFail> {
    if 0 <= p < s.len() && s[p] == ch {
        Ok((p + 1, c + 1))
    } else {
        let got = if 0 <= p < s.len() { seq![s[p]] } else { "EOF"@ };
        Err(fail(l, c, "expected '"@ + seq![ch] + "', got '"@ + got + "'"@))
    }
}

/// What an escape `\e` in a quoted string stands for.
pub open spec fn escape_text(e: char) -> Seq<char> {
    if e == '"' {
        seq!['"']
    } else if e == '\\' {
        seq!['\\']
    } else if e == 'n' {
        seq!['\n']
    } else {
        seq!['\\', e]
    }
}

/// The rest of a quoted string from `p`, after `acc` was read.
pub open spec fn quoted_body(s: Seq<char>, p: int, l: int, c: int, acc: Seq<char>) -> Result<(Seq<char>, Cursor), DbFail>
    decreases s.len() - p,
{
    if p < 0 || p >= s.len() {
        Err(fail(l, c, "unterminated string"@))
    } else if s[p] == '"' {
        Ok((acc, (p + 1, l, c + 1)))
    } else if s[p] == '\\' && p + 1 < s.len() {
        quoted_body(s, p + 2, l, c + 2, acc + escape_text(s[p + 1]))
    } else if s[p] == '\n' {
        quoted_body(s, p + 1, l + 1, 1, acc.push('\n'))
    } else {
        quoted_body(s, p + 1, l, c + 1, acc.push(s[p]))
    }
}

/// A double-quoted string at `p`.
pub open spec fn quoted_at(s: Seq<char>, p: int, l: int, c: int) -> Result<(Seq<char>, Cursor), DbFail> {
    if 0 <= p < s.len() && s[p] == '"' {
        quoted_body(s, p + 1, l, c + 1, Seq::empty())
    } else {
        Err(fail(l, c, "expected '\"'"@))
    }
}

/// An unquoted value: everything up to `)` or `,`.
pub open spec fn unquoted(s: Seq<char>, p: int, l: int, c: int, acc: Seq<char>) -> (Seq<char>, Cursor)
    decreases s.len() - p,
{
    if p < 0 || p >= s.len() || s[p] == ')' || s[p] == ',' {
        (acc, (p, l, c))
    } else if s[p] == '\n' {
        unquoted(s, p + 1, l + 1, 1, acc.push('\n'))
    } else {
        unquoted(s, p + 1, l, c + 1, acc.push(s[p]))
    }
}

/// A field value: a quoted string, or an unquoted run with its surrounding
/// whitespace trimmed.
pub open spec fn field_value_at(s: Seq<char>, p: int, l: int, c: int) -> Result<(Seq<char>, Cursor), DbFail> {
    if 0 <= p < s.len() && s[p] == '"' {
        quoted_at(s, p, l, c)
    } else {
        let (v, k) = unquoted(s, p, l, c, Seq::empty());
        Ok((trim(v), k))
    }
}

/// Passing over the rest of a parenthesised group at nesting `d`.
pub open spec fn paren_skip(s: Seq<char>, p: int, l: int, c: int, d: int) -> Cursor
    decreases s.len() - p,
{
    if p < 0 || p >= s.len() || d <= 0 {
        (p, l, c)
    } else if s[p] == '(' {
        paren_skip(s, p + 1, l, c + 1, d + 1)
    } else if s[p] == ')' {
        paren_skip(s, p + 1, l, c + 1, d - 1)
    } else if s[p] == '\n' {
        paren_skip(s, p + 1, l + 1, 1, d)
    } else {
        paren_skip(s, p + 1, l, c + 1, d)
    }
}

/// `(NAME, VALUE)` of a `field` entry, after the keyword.
pub open spec fn field_at(s: Seq<char>, p: int, l: int, c: int) -> Result<(Seq<char>, Seq<char>, Cursor), DbFail> {
    let (p1, l1, c1) = skip_blank(s, p, l, c);
    match expect_at(s, p1, c1, '(', l1) {
        Err(f) => Err(f),
        Ok((p2, c2)) => {
            let (p3, l3, c3) = skip_blank(s, p2, l1, c2);
            let e = db_word_end(s, p3);
            let name = s.subrange(p3, e);
            let (p5, l5, c5) = skip_blank(s, e, l3, c3 + (e - p3));
            match expect_at(s, p5, c5, ',', l5) {
                Err(f) => Err(f),
                Ok((p6, c6)) => {
                    let (p7, l7, c7) = skip_blank(s, p6, l5, c6);
                    match field_value_at(s, p7, l7, c7) {
                        Err(f) => Err(f),
                        Ok((v, (p8, l8, c8))) => {
                            let (p9, l9, c9) = skip_blank(s, p8, l8, c8);
                            match expect_at(s, p9, c9, ')', l9) {
                                Err(f) => Err(f),
                                Ok((p10, c10)) => Ok((name, v, (p10, l9, c10))),
                            }
                        },
                    }
                },
            }
        },
    }
}

/// `(TYPE, "NAME") {` of a record, after the keyword.
pub open spec fn header_at(s: Seq<char>, p: int, l: int, c: int) -> Result<(Seq<char>, Seq<char>, Cursor), DbFail> {
    let (p1, l1, c1) = skip_blank(s, p, l, c);
    match expect_at(s, p1, c1, '(', l1) {
        Err(f) => Err(f),
        Ok((p2, c2)) => {
            let (p3, l3, c3) = skip_blank(s, p2, l1, c2);
            let e = db_word_end(s, p3);
            let rtype = s.subrange(p3, e);
            let (p5, l5, c5) = skip_blank(s, e, l3, c3 + (e - p3));
            match expect_at(s, p5, c5, ',', l5) {
                Err(f) => Err(f),
                Ok((p6, c6)) => {
                    let (p7, l7, c7) = skip_blank(s, p6, l5, c6);
                    match quoted_at(s, p7, l7, c7) {
                        Err(f) => Err(f),
                        Ok((name, (p8, l8, c8))) => {
                            let (p9, l9, c9) = skip_blank(s, p8, l8, c8);
                            match expect_at(s, p9, c9, ')', l9) {
                                Err(f) => Err(f),
                                Ok((p10, c10)) => {
                                    let (p11, l11, c11) = skip_blank(s, p10, l9, c10);
                                    match expect_at(s, p11, c11, '{', l11) {
                                        Err(f) => Err(f),
                                        Ok((p12, c12)) => Ok((rtype, name, (p12, l11, c12))),
                                    }
                                },
                            }
                        },
                    }
                },
            }
        },
    }
}

pub proof fn lemma_skip_blank(s: Seq<char>, p: int, l: int, c: int)
    requires
        0 <= p <= s.len(),
    ensures
        p <= skip_blank(s, p, l, c).0 <= s.len(),
        1 <= l <= p + 1 && 1 <= c <= p + 1 ==> 1 <= skip_blank(s, p, l, c).1 <= skip_blank(s, p, l, c).0 + 1
            && 1 <= skip_blank(s, p, l, c).2 <= skip_blank(s, p, l, c).0 + 1,
    decreases s.len() - p,
{
    if p < s.len() {
        if s[p] == ' ' || s[p] == '\t' || s[p] == '\r' {
            lemma_skip_blank(s, p + 1, l, c + 1);
        } else if s[p] == '\n' {
            lemma_skip_blank(s, p + 1, l + 1, 1);
        } else if s[p] == '#' {
            lemma_find_from(s, p + 1, '\n');
            lemma_skip_blank(s, find_from(s, p + 1, '\n'), l, c);
        }
    }
}

pub proof fn lemma_db_word_end(s: Seq<char>, p: int)
    requires
        0 <= p <= s.len(),
    ensures
        p <= db_word_end(s, p) <= s.len(),
        forall|k: int| p <= k < db_word_end(s, p) ==> is_db_word_char(#[trigger] s[k]),
        db_word_end(s, p) < s.len() ==> !is_db_word_char(s[db_word_end(s, p)]),
    decreases s.len() - p,
{
    if p < s.len() && is_db_word_char(s[p]) {
        lemma_db_word_end(s, p + 1);
    }
}

pub proof fn lemma_quoted_body(s: Seq<char>, p: int, l: int, c: int, acc: Seq<char>)
    requires
        0 <= p <= s.len(),
    ensures
        quoted_body(s, p, l, c, acc) matches Ok((_, k)) ==> p < k.0 <= s.len() && (
            1 <= l <= p + 1 && 1 <= c <= p + 1 ==> 1 <= k.1 <= k.0 + 1 && 1 <= k.2 <= k.0 + 1),
    decreases s.len() - p,
{
    if p < s.len() && s[p] != '"' {
        if s[p] == '\\' && p + 1 < s.len() {
            lemma_quoted_body(s, p + 2, l, c + 2, acc + escape_text(s[p + 1]));
        } else if s[p] == '\n' {
            lemma_quoted_body(s, p + 1, l + 1, 1, acc.push('\n'));
        } else {
            lemma_quoted_body(s, p + 1, l, c + 1, acc.push(s[p]));
        }
    }
}

pub proof fn lemma_unquoted(s: Seq<char>, p: int, l: int, c: int, acc: Seq<char>)
    requires
        0 <= p <= s.len(),
    ensures
        p <= unquoted(s, p, l, c, acc).1.0 <= s.len(),
        1 <= l <= p + 1 && 1 <= c <= p + 1 ==> 1 <= unquoted(s, p, l, c, acc).1.1 <= unquoted(s, p, l, c, acc).1.0 + 1
            && 1 <= unquoted(s, p, l, c, acc).1.2 <= unquoted(s, p, l, c, acc).1.0 + 1,
    decreases s.len() - p,
{
    if p < s.len() && s[p] != ')' && s[p] != ',' {
        if s[p] == '\n' {
            lemma_unquoted(s, p + 1, l + 1, 1, acc.push('\n'));
        } else {
            lemma_unquoted(s, p + 1, l, c + 1, acc.push(s[p]));
        }
    }
}

pub proof fn lemma_paren_skip(s: Seq<char>, p: int, l: int, c: int, d: int)
    requires
        0 <= p <= s.len(),
    ensures
        p <= paren_skip(s, p, l, c, d).0 <= s.len(),
        1 <= l <= p + 1 && 1 <= c <= p + 1 ==> 1 <= paren_skip(s, p, l, c, d).1 <= paren_skip(s, p, l, c, d).0 + 1
            && 1 <= paren_skip(s, p, l, c, d).2 <= paren_skip(s, p, l, c, d).0 + 1,
    decreases s.len() - p,
{
    if p < s.len() && d > 0 {
        if s[p] == '(' {
            lemma_paren_skip(s, p + 1, l, c + 1, d + 1);
        } else if s[p] == ')' {
            lemma_paren_skip(s, p + 1, l, c + 1, d - 1);
        } else if s[p] == '\n' {
            lemma_paren_skip(s, p + 1, l + 1, 1, d);
        } else {
            lemma_paren_skip(s, p + 1, l, c + 1, d);
        }
    }
}

/// The cursor invariant: line and column are at least 1 and at most one
/// past the position.
pub open spec fn cursor_ok(k: Cursor, len: int) -> bool {
    0 <= k.0 <= len && 1 <= k.1 <= k.0 + 1 && 1 <= k.2 <= k.0 + 1
}

pub proof fn lemma_field_value_at(s: Seq<char>, p: int, l: int, c: int)
    requires
        0 <= p <= s.len(),
    ensures
        field_value_at(s, p, l, c) matches Ok((_, k)) ==> p <= k.0 <= s.len() && (cursor_ok((p, l, c), s.len() as int) ==> cursor_ok(k, s.len() as int)),
{
    if 0 <= p < s.len() && s[p] == '"' {
        lemma_quoted_body(s, p + 1, l, c + 1, Seq::empty());
    } else {
        lemma_unquoted(s, p, l, c, Seq::empty());
    }
}

pub proof fn lemma_field_at(s: Seq<char>, p: int, l: int, c: int)
    requires
        0 <= p <= s.len(),
    ensures
        field_at(s, p, l, c) matches Ok((_, _, k)) ==> p < k.0 <= s.len() && (cursor_ok((p, l, c), s.len() as int) ==> cursor_ok(k, s.len() as int)),
{
    lemma_skip_blank(s, p, l, c);
    let (p1, l1, c1) = skip_blank(s, p, l, c);
    if let Ok((p2, c2)) = expect_at(s, p1, c1, '(', l1) {
        lemma_skip_blank(s, p2, l1, c2);
        let (p3, l3, c3) = skip_blank(s, p2, l1, c2);
        lemma_db_word_end(s, p3);
        let e = db_word_end(s, p3);
        lemma_skip_blank(s, e, l3, c3 + (e - p3));
        let (p5, l5, c5) = skip_blank(s, e, l3, c3 + (e - p3));
        if let Ok((p6, c6)) = expect_at(s, p5, c5, ',', l5) {
            lemma_skip_blank(s, p6, l5, c6);
            let (p7, l7, c7) = skip_blank(s, p6, l5, c6);
            lemma_field_value_at(s, p7, l7, c7);
            if let Ok((v, (p8, l8, c8))) = field_value_at(s, p7, l7, c7) {
                lemma_skip_blank(s, p8, l8, c8);
            }
        }
    }
}

pub proof fn lemma_header_at(s: Seq<char>, p: int, l: int, c: int)
    requires
        0 <= p <= s.len(),
    ensures
        header_at(s, p, l, c) matches Ok((_, _, k)) ==> p < k.0 <= s.len() && (cursor_ok((p, l, c), s.len() as int) ==> cursor_ok(k, s.len() as int)),
{
    lemma_skip_blank(s, p, l, c);
    let (p1, l1, c1) = skip_blank(s, p, l, c);
    if let Ok((p2, c2)) = expect_at(s, p1, c1, '(', l1) {
        lemma_skip_blank(s, p2, l1, c2);
        let (p3, l3, c3) = skip_blank(s, p2, l1, c2);
        lemma_db_word_end(s, p3);
        let e = db_word_end(s, p3);
        lemma_skip_blank(s, e, l3, c3 + (e - p3));
        let (p5, l5, c5) = skip_blank(s, e, l3, c3 + (e - p3));
        if let Ok((p6, c6)) = expect_at(s, p5, c5, ',', l5) {
            lemma_skip_blank(s, p6, l5, c6);
            let (p7, l7, c7) = skip_blank(s, p6, l5, c6);
            if 0 <= p7 < s.len() && s[p7] == '"' {
                lemma_quoted_body(s, p7 + 1, l7, c7 + 1, Seq::empty());
            }
            if let Ok((name, (p8, l8, c8))) = quoted_at(s, p7, l7, c7) {
                lemma_skip_blank(s, p8, l8, c8);
                let (p9, l9, c9) = skip_blank(s, p8, l8, c8);
                if let Ok((p10, c10)) = expect_at(s, p9, c9, ')', l9) {
                    lemma_skip_blank(s, p10, l9, c10);
                }
            }
        }
    }
}

/// The fields of a record body from `p` up to its closing `}`, after
/// `fields` were read.  `info(...)` and `alias(...)` entries are passed over.
pub open spec fn body_from(s: Seq<char>, p: int, l: int, c: int, fields: Seq<(Seq<char>, Seq<char>)>) -> Result<(Seq<(Seq<char>, Seq<char>)>, Cursor), DbFail>
    decreases s.len() - p,
{
    if p < 0 || p > s.len() {
        Ok((fields, (p, l, c)))
    } else {
        let (p1, l1, c1) = skip_blank(s, p, l, c);
        proof {
            lemma_skip_blank(s, p, l, c);
        }
        if p1 >= s.len() {
            Err(fail(l1, c1, "unexpected end of file in record body"@))
        } else if s[p1] == '}' {
            Ok((fields, (p1 + 1, l1, c1 + 1)))
        } else {
            let e = db_word_end(s, p1);
            proof {
                lemma_db_word_end(s, p1);
            }
            let kw = s.subrange(p1, e);
            let c2 = c1 + (e - p1);
            if kw != "field"@ && kw != "info"@ && kw != "alias"@ {
                Err(fail(l1, c2, "expected 'field', got '"@ + kw + "'"@))
            } else if kw != "field"@ {
                let (p3, l3, c3) = skip_blank(s, e, l1, c2);
                proof {
                    reveal_strlit("info");
                    reveal_strlit("alias");
                    assert(kw.len() == "info"@.len() || kw.len() == "alias"@.len());
                    lemma_skip_blank(s, e, l1, c2);
                }
                if p3 < s.len() && s[p3] == '(' {
                    let (p4, l4, c4) = paren_skip(s, p3 + 1, l3, c3 + 1, 1);
                    proof {
                        lemma_paren_skip(s, p3 + 1, l3, c3 + 1, 1);
                    }
                    body_from(s, p4, l4, c4, fields)
                } else {
                    body_from(s, p3, l3, c3, fields)
                }
            } else {
                proof {
                    lemma_field_at(s, e, l1, c2);
                }
                match field_at(s, e, l1, c2) {
                    Err(f) => Err(f),
                    Ok((name, v, k)) => body_from(s, k.0, k.1, k.2, fields.push((name, v))),
                }
            }
        }
    }
}

pub proof fn lemma_body_from(s: Seq<char>, p: int, l: int, c: int, fields: Seq<(Seq<char>, Seq<char>)>)
    requires
        0 <= p <= s.len(),
    ensures
        body_from(s, p, l, c, fields) matches Ok((_, k)) ==> p < k.0 <= s.len() && (cursor_ok((p, l, c), s.len() as int) ==> cursor_ok(k, s.len() as int)),
    decreases s.len() - p,
{
    lemma_skip_blank(s, p, l, c);
    let (p1, l1, c1) = skip_blank(s, p, l, c);
    if p1 < s.len() && s[p1] != '}' {
        lemma_db_word_end(s, p1);
        let e = db_word_end(s, p1);
        let kw = s.subrange(p1, e);
        let c2 = c1 + (e - p1);
        reveal_strlit("field");
        reveal_strlit("info");
        reveal_strlit("alias");
        if kw == "info"@ || kw == "alias"@ {
            assert(kw.len() == "info"@.len() || kw.len() == "alias"@.len());
            assert("alias"@[0] != "field"@[0]);
            assert(kw != "field"@);
            lemma_skip_blank(s, e, l1, c2);
            let (p3, l3, c3) = skip_blank(s, e, l1, c2);
            if p3 < s.len() && s[p3] == '(' {
                lemma_paren_skip(s, p3 + 1, l3, c3 + 1, 1);
                let (p4, l4, c4) = paren_skip(s, p3 + 1, l3, c3 + 1, 1);
                lemma_body_from(s, p4, l4, c4, fields);
                assert(body_from(s, p, l, c, fields) == body_from(s, p4, l4, c4, fields));
            } else {
                lemma_body_from(s, p3, l3, c3, fields);
                assert(body_from(s, p, l, c, fields) == body_from(s, p3, l3, c3, fields));
            }
        } else if kw == "field"@ {
            lemma_field_at(s, e, l1, c2);
            if let Ok((name, v, k)) = field_at(s, e, l1, c2) {
                lemma_body_from(s, k.0, k.1, k.2, fields.push((name, v)));
            }
        }
    }
}

/// The records of the text from `p`, after `acc` were read.  A character
/// that starts no word is passed over; any word other than `record` or
/// `grecord` is refused.
pub open spec fn records_from(s: Seq<char>, p: int, l: int, c: int, acc: Seq<RecordModel>) -> Result<Seq<RecordModel>, DbFail>
    decreases s.len() - p,
{
    if p < 0 || p >= s.len() {
        Ok(acc)
    } else {
        let (p1, l1, c1) = skip_blank(s, p, l, c);
        proof {
            lemma_skip_blank(s, p, l, c);
        }
        if p1 >= s.len() {
            Ok(acc)
        } else {
            let e = db_word_end(s, p1);
            proof {
                lemma_db_word_end(s, p1);
            }
            let w = s.subrange(p1, e);
            let c2 = c1 + (e - p1);
            if e == p1 {
                records_from(s, p1 + 1, l1, c2 + 1, acc)
            } else if w != "record"@ && w != "grecord"@ {
                Err(fail(l1, c2, "expected 'record', got '"@ + w + "'"@))
            } else {
                proof {
                    lemma_header_at(s, e, l1, c2);
                }
                match header_at(s, e, l1, c2) {
                    Err(f) => Err(f),
                    Ok((t, n, k)) => {
                        proof {
                            lemma_body_from(s, k.0, k.1, k.2, Seq::empty());
                        }
                        match body_from(s, k.0, k.1, k.2, Seq::empty()) {
                            Err(f) => Err(f),
                            Ok((fs, k2)) => records_from(
                                s,
                                k2.0,
                                k2.1,
                                k2.2,
                                acc.push(RecordModel { record_type: t, name: n, fields: fs }),
                            ),
                        }
                    },
                }
            }
        }
    }
}

/// The records a `.db` text defines, or why it is refused.
pub open spec fn db_records(s: Seq<char>) -> Result<Seq<RecordModel>, DbFail> {
    records_from(s, 0, 1, 1, Seq::empty())
}

} // verus!
