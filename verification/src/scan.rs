//! Cursor-style scanning over a character sequence: skipping whitespace and
//! `#` comments, reading identifier words and decimal digit runs.
use vstd::prelude::*;
use crate::text::{
    char_is_alphanumeric, char_is_ascii_digit, char_is_white, find_char, find_from, is_ascii_digit,
    is_white, lemma_find_from, unicode_alphanumeric,
};

verus! {

/// Position after the whitespace and `#` line comments that start at `p`
/// (a comment runs through its `\n`).
pub open spec fn ws_end(s: Seq<char>, p: int) -> int
    decreases s.len() - p,
{
    if p < 0 || p >= s.len() {
        p
    } else if is_white(s[p]) {
        ws_end(s, p + 1)
    } else if s[p] == '#' {
        let e = find_from(s, p, '\n');
        proof {
            lemma_find_from(s, p, '\n');
        }
        if e < s.len() {
            ws_end(s, e + 1)
        } else {
            s.len() as int
        }
    } else {
        p
    }
}

pub proof fn lemma_ws_end(s: Seq<char>, p: int)
    requires
        0 <= p <= s.len(),
    ensures
        p <= ws_end(s, p) <= s.len(),
        ws_end(s, p) < s.len() ==> !is_white(s[ws_end(s, p)]) && s[ws_end(s, p)] != '#',
    decreases s.len() - p,
{
    if p < s.len() {
        if is_white(s[p]) {
            lemma_ws_end(s, p + 1);
        } else if s[p] == '#' {
            lemma_find_from(s, p, '\n');
            let e = find_from(s, p, '\n');
            if e < s.len() {
                lemma_ws_end(s, e + 1);
            }
        }
    }
}

/// Skips whitespace and `#` comments from `p`.
pub fn skip_ws_comments(s: &Vec<char>, p: usize) -> (r: usize)
    requires
        p <= s.len(),
    ensures
        r == ws_end(s@, p as int),
        p <= r <= s.len(),
{
    let mut q: usize = p;
    while q < s.len() && (char_is_white(s[q]) || s[q] == '#')
        invariant
            p <= q <= s.len(),
            ws_end(s@, p as int) == ws_end(s@, q as int),
        decreases s.len() - q,
    {
        let c = s[q];
        if char_is_white(c) {
            q = q + 1;
        } else {
            let e = find_char(s, q, '\n');
            proof {
                lemma_find_from(s@, q as int, '\n');
            }
            if e < s.len() {
                q = e + 1;
            } else {
                q = s.len();
            }
        }
    }
    q
}

/// Characters a keyword or identifier word is made of.
pub open spec fn is_word_char(c: char) -> bool {
    unicode_alphanumeric(c) || c == '_'
}

/// End of the run of word characters that starts at `p`.
pub open spec fn word_end(s: Seq<char>, p: int) -> int
    decreases s.len() - p,
{
    if p < 0 || p >= s.len() {
        p
    } else if is_word_char(s[p]) {
        word_end(s, p + 1)
    } else {
        p
    }
}

pub proof fn lemma_word_end(s: Seq<char>, p: int)
    requires
        0 <= p <= s.len(),
    ensures
        p <= word_end(s, p) <= s.len(),
        forall|k: int| p <= k < word_end(s, p) ==> is_word_char(#[trigger] s[k]),
        word_end(s, p) < s.len() ==> !is_word_char(s[word_end(s, p)]),
    decreases s.len() - p,
{
    if p < s.len() && is_word_char(s[p]) {
        lemma_word_end(s, p + 1);
    }
}

pub fn read_word_end(s: &Vec<char>, p: usize) -> (r: usize)
    requires
        p <= s.len(),
    ensures
        r == word_end(s@, p as int),
        p <= r <= s.len(),
{
    let mut q: usize = p;
    while q < s.len() && (char_is_alphanumeric(s[q]) || s[q] == '_')
        invariant
            p <= q <= s.len(),
            word_end(s@, p as int) == word_end(s@, q as int),
        decreases s.len() - q,
    {
        q = q + 1;
    }
    q
}

/// End of the run of ASCII digits that starts at `p`.
pub open spec fn digits_end(s: Seq<char>, p: int) -> int
    decreases s.len() - p,
{
    if p < 0 || p >= s.len() {
        p
    } else if is_ascii_digit(s[p]) {
        digits_end(s, p + 1)
    } else {
        p
    }
}

pub proof fn lemma_digits_end(s: Seq<char>, p: int)
    requires
        0 <= p <= s.len(),
    ensures
        p <= digits_end(s, p) <= s.len(),
        forall|k: int| p <= k < digits_end(s, p) ==> is_ascii_digit(#[trigger] s[k]),
    decreases s.len() - p,
{
    if p < s.len() && is_ascii_digit(s[p]) {
        lemma_digits_end(s, p + 1);
    }
}

pub fn read_digits_end(s: &Vec<char>, p: usize) -> (r: usize)
    requires
        p <= s.len(),
    ensures
        r == digits_end(s@, p as int),
        p <= r <= s.len(),
{
    let mut q: usize = p;
    while q < s.len() && char_is_ascii_digit(s[q])
        invariant
            p <= q <= s.len(),
            digits_end(s@, p as int) == digits_end(s@, q as int),
        decreases s.len() - q,
    {
        q = q + 1;
    }
    q
}

/// The value of a string of decimal digits.
pub open spec fn digits_value(t: Seq<char>) -> nat
    decreases t.len(),
{
    if t.len() == 0 {
        0
    } else {
        digits_value(t.drop_last()) * 10 + ((t.last() as u32) - 48) as nat
    }
}

pub open spec fn all_digits(t: Seq<char>) -> bool {
    forall|k: int| 0 <= k < t.len() ==> is_ascii_digit(#[trigger] t[k])
}

/// The value of the digits `s[lo..hi]`, or `None` when it exceeds `limit`.
pub fn digits_value_upto(s: &Vec<char>, lo: usize, hi: usize, limit: u64) -> (r: Option<u64>)
    requires
        lo <= hi <= s.len(),
        all_digits(s@.subrange(lo as int, hi as int)),
    ensures
        match r {
            Some(v) => v == digits_value(s@.subrange(lo as int, hi as int)) && v <= limit,
            None => digits_value(s@.subrange(lo as int, hi as int)) > limit,
        },
{
    let mut v: u64 = 0;
    let mut i: usize = lo;
    while i < hi
        invariant
            lo <= i <= hi <= s.len(),
            all_digits(s@.subrange(lo as int, hi as int)),
            v == digits_value(s@.subrange(lo as int, i as int)),
            v <= limit,
        decreases hi - i,
    {
        let ghost t = s@.subrange(lo as int, i + 1);
        assert(t.drop_last() =~= s@.subrange(lo as int, i as int));
        assert(s@.subrange(lo as int, hi as int)[i - lo] == s@[i as int]);
        let d: u64 = (s[i] as u32 - 48) as u64;
        if d > limit || v > (limit - d) / 10 {
            proof {
                if d <= limit {
                    let q = (limit - d) / 10;
                    assert(v >= q + 1);
                    assert((limit - d) < 10 * q + 10) by (nonlinear_arith)
                        requires
                            q == (limit - d) / 10,
                            limit >= d,
                    ;
                    assert(v * 10 >= (q + 1) * 10) by (nonlinear_arith)
                        requires
                            v >= q + 1,
                    ;
                }
                assert(v * 10 + d > limit);
                lemma_digits_rest_ge(s@.subrange(lo as int, hi as int), (i + 1 - lo) as int);
                assert(s@.subrange(lo as int, hi as int).subrange(0, i + 1 - lo) =~= t);
            }
            return None;
        }
        proof {
            let q = (limit - d) / 10;
            assert(10 * q <= limit - d) by (nonlinear_arith)
                requires
                    q == (limit - d) / 10,
                    limit >= d,
            ;
            assert(v * 10 <= q * 10) by (nonlinear_arith)
                requires
                    v <= q,
            ;
        }
        v = v * 10 + d;
        i = i + 1;
    }
    Some(v)
}

/// Digits beyond a prefix never make the value smaller.
pub proof fn lemma_digits_rest_ge(t: Seq<char>, n: int)
    requires
        0 <= n <= t.len(),
        all_digits(t),
    ensures
        digits_value(t) >= digits_value(t.subrange(0, n)),
    decreases t.len() - n,
{
    if n < t.len() {
        lemma_digits_rest_ge(t, n + 1);
        let u = t.subrange(0, n + 1);
        assert(u.drop_last() =~= t.subrange(0, n));
        assert(all_digits(u));
    } else {
        assert(t.subrange(0, n) =~= t);
    }
}

} // verus!
