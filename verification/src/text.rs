//! Character-level text helpers shared by the parsers of the library:
//! whitespace classification, trimming, line splitting and conversion
//! between `String` and `Vec<char>`.
use vstd::prelude::*;

verus! {

/// The Unicode `White_Space` property, which is what `char::is_whitespace`
/// tests.
pub open spec fn is_white(c: char) -> bool {
    ||| c == '\t'
    ||| c == '\n'
    ||| c == '\x0B'
    ||| c == '\x0C'
    ||| c == '\r'
    ||| c == ' '
    ||| c == '\u{85}'
    ||| c == '\u{A0}'
    ||| c == '\u{1680}'
    ||| ('\u{2000}' <= c && c <= '\u{200A}')
    ||| c == '\u{2028}'
    ||| c == '\u{2029}'
    ||| c == '\u{202F}'
    ||| c == '\u{205F}'
    ||| c == '\u{3000}'
}

/// Whitespace test with the meaning of `char::is_whitespace`.
pub fn char_is_white(c: char) -> (r: bool)
    ensures
        r == is_white(c),
{
    c == '\t' || c == '\n' || c == '\x0B' || c == '\x0C' || c == '\r' || c == ' ' || c == '\u{85}'
        || c == '\u{A0}' || c == '\u{1680}' || ('\u{2000}' <= c && c <= '\u{200A}') || c
        == '\u{2028}' || c == '\u{2029}' || c == '\u{202F}' || c == '\u{205F}' || c == '\u{3000}'
}

pub open spec fn is_ascii_digit(c: char) -> bool {
    '0' <= c && c <= '9'
}

pub open spec fn is_ascii_upper(c: char) -> bool {
    'A' <= c && c <= 'Z'
}

pub open spec fn is_ascii_lower(c: char) -> bool {
    'a' <= c && c <= 'z'
}

pub open spec fn is_ascii_alnum(c: char) -> bool {
    is_ascii_digit(c) || is_ascii_upper(c) || is_ascii_lower(c)
}

pub fn char_is_ascii_digit(c: char) -> (r: bool)
    ensures
        r == is_ascii_digit(c),
{
    '0' <= c && c <= '9'
}

pub fn char_is_ascii_alnum(c: char) -> (r: bool)
    ensures
        r == is_ascii_alnum(c),
{
    ('0' <= c && c <= '9') || ('A' <= c && c <= 'Z') || ('a' <= c && c <= 'z')
}

/// What `char::is_alphanumeric` answers for `c` (the Unicode `Alphabetic`
/// or `Numeric` property).
pub uninterp spec fn unicode_alphanumeric(c: char) -> bool;

/// Calls `char::is_alphanumeric`. Its result is named by
/// `unicode_alphanumeric`; on ASCII characters the standard library documents
/// it as exactly the letters and digits.
#[verifier::external_body]
pub(crate) fn char_is_alphanumeric(c: char) -> (r: bool)
    ensures
        r == unicode_alphanumeric(c),
        (c as u32) < 128 ==> (r == is_ascii_alnum(c)),
{
    c.is_alphanumeric()
}

/// ASCII upper-casing of one character (`char::to_ascii_uppercase`).
pub open spec fn ascii_upper(c: char) -> char {
    if is_ascii_lower(c) {
        ((c as u32) - 32) as char
    } else {
        c
    }
}

/// ASCII lower-casing of one character (`char::to_ascii_lowercase`).
pub open spec fn ascii_lower(c: char) -> char {
    if is_ascii_upper(c) {
        ((c as u32) + 32) as char
    } else {
        c
    }
}

pub fn char_to_ascii_upper(c: char) -> (r: char)
    ensures
        r == ascii_upper(c),
{
    if 'a' <= c && c <= 'z' {
        let u: u32 = c as u32;
        let d: u32 = u - 32;
        assert(0x41 <= d <= 0x5A);
        char_from_ascii(d)
    } else {
        c
    }
}

pub fn char_to_ascii_lower(c: char) -> (r: char)
    ensures
        r == ascii_lower(c),
{
    if 'A' <= c && c <= 'Z' {
        let u: u32 = c as u32;
        let d: u32 = u + 32;
        assert(0x61 <= d <= 0x7A);
        char_from_ascii(d)
    } else {
        c
    }
}

/// The character with the given code below 128.
fn char_from_ascii(u: u32) -> (r: char)
    requires
        u < 128,
    ensures
        r == u as char,
{
    let b: u8 = u as u8;
    b as char
}

pub open spec fn seq_ascii_upper(s: Seq<char>) -> Seq<char> {
    Seq::new(s.len(), |i: int| ascii_upper(s[i]))
}

pub open spec fn seq_ascii_lower(s: Seq<char>) -> Seq<char> {
    Seq::new(s.len(), |i: int| ascii_lower(s[i]))
}

pub fn to_ascii_upper(s: &Vec<char>) -> (r: Vec<char>)
    ensures
        r@ == seq_ascii_upper(s@),
{
    let mut r: Vec<char> = Vec::new();
    let mut i: usize = 0;
    while i < s.len()
        invariant
            i <= s.len(),
            r@ == seq_ascii_upper(s@.subrange(0, i as int)),
        decreases s.len() - i,
    {
        let c = char_to_ascii_upper(s[i]);
        r.push(c);
        i = i + 1;
        assert(r@ =~= seq_ascii_upper(s@.subrange(0, i as int)));
    }
    assert(s@.subrange(0, i as int) =~= s@);
    r
}

pub fn to_ascii_lower(s: &Vec<char>) -> (r: Vec<char>)
    ensures
        r@ == seq_ascii_lower(s@),
{
    let mut r: Vec<char> = Vec::new();
    let mut i: usize = 0;
    while i < s.len()
        invariant
            i <= s.len(),
            r@ == seq_ascii_lower(s@.subrange(0, i as int)),
        decreases s.len() - i,
    {
        let c = char_to_ascii_lower(s[i]);
        r.push(c);
        i = i + 1;
        assert(r@ =~= seq_ascii_lower(s@.subrange(0, i as int)));
    }
    assert(s@.subrange(0, i as int) =~= s@);
    r
}

/// The characters of a string slice (`str::chars` collected).
#[verifier::external_body]
pub(crate) fn chars_of(s: &str) -> (r: Vec<char>)
    ensures
        r@ == s@,
{
    s.chars().collect()
}

/// A `String` made of the given characters (`FromIterator<char>`).
#[verifier::external_body]
pub(crate) fn string_of(v: &[char]) -> (r: String)
    ensures
        r@ == v@,
{
    v.iter().collect()
}

pub fn string_of_vec(v: &Vec<char>) -> (r: String)
    ensures
        r@ == v@,
{
    string_of(v.as_slice())
}

/// The characters `s[lo..hi]` as a new vector.
pub fn sub_vec(s: &Vec<char>, lo: usize, hi: usize) -> (r: Vec<char>)
    requires
        lo <= hi <= s.len(),
    ensures
        r@ == s@.subrange(lo as int, hi as int),
{
    let mut r: Vec<char> = Vec::new();
    let mut i: usize = lo;
    while i < hi
        invariant
            lo <= i <= hi <= s.len(),
            r@ == s@.subrange(lo as int, i as int),
        decreases hi - i,
    {
        r.push(s[i]);
        i = i + 1;
        assert(r@ =~= s@.subrange(lo as int, i as int));
    }
    r
}

pub fn sub_string(s: &Vec<char>, lo: usize, hi: usize) -> (r: String)
    requires
        lo <= hi <= s.len(),
    ensures
        r@ == s@.subrange(lo as int, hi as int),
{
    let v = sub_vec(s, lo, hi);
    string_of_vec(&v)
}

/// Appends all characters of `t` to `r`.
pub fn push_all(r: &mut Vec<char>, t: &Vec<char>)
    ensures
        final(r)@ == old(r)@ + t@,
{
    let mut i: usize = 0;
    while i < t.len()
        invariant
            i <= t.len(),
            r@ == old(r)@ + t@.subrange(0, i as int),
        decreases t.len() - i,
    {
        r.push(t[i]);
        i = i + 1;
        assert(r@ =~= old(r)@ + t@.subrange(0, i as int));
    }
    assert(t@.subrange(0, i as int) =~= t@);
}

/// Appends the characters of a string slice.
pub fn push_str(r: &mut Vec<char>, t: &str)
    ensures
        final(r)@ == old(r)@ + t@,
{
    let tv = chars_of(t);
    push_all(r, &tv);
}

pub fn chars_eq(a: &Vec<char>, b: &Vec<char>) -> (r: bool)
    ensures
        r == (a@ == b@),
{
    if a.len() != b.len() {
        return false;
    }
    let mut i: usize = 0;
    while i < a.len()
        invariant
            i <= a.len() == b.len(),
            forall|k: int| 0 <= k < i ==> a@[k] == b@[k],
        decreases a.len() - i,
    {
        if a[i] != b[i] {
            return false;
        }
        i = i + 1;
    }
    assert(a@ =~= b@);
    true
}

pub fn chars_eq_str(a: &Vec<char>, b: &str) -> (r: bool)
    ensures
        r == (a@ == b@),
{
    let bv = chars_of(b);
    chars_eq(a, &bv)
}

pub fn str_eq(a: &str, b: &str) -> (r: bool)
    ensures
        r == (a@ == b@),
{
    let av = chars_of(a);
    let bv = chars_of(b);
    chars_eq(&av, &bv)
}

/// Whether `s[pos..]` starts with `p`.
pub open spec fn has_prefix_at(s: Seq<char>, pos: int, p: Seq<char>) -> bool {
    0 <= pos && pos + p.len() <= s.len() && s.subrange(pos, pos + p.len()) == p
}

pub fn prefix_at(s: &Vec<char>, pos: usize, p: &Vec<char>) -> (r: bool)
    ensures
        r == has_prefix_at(s@, pos as int, p@),
{
    if pos > s.len() || p.len() > s.len() - pos {
        return false;
    }
    let mut i: usize = 0;
    while i < p.len()
        invariant
            i <= p.len(),
            pos + p.len() <= s.len(),
            forall|k: int| 0 <= k < i ==> s@[pos + k] == p@[k],
        decreases p.len() - i,
    {
        if s[pos + i] != p[i] {
            return false;
        }
        i = i + 1;
    }
    assert(s@.subrange(pos as int, pos + p.len()) =~= p@);
    true
}

pub fn prefix_at_str(s: &Vec<char>, pos: usize, p: &str) -> (r: bool)
    ensures
        r == has_prefix_at(s@, pos as int, p@),
{
    let pv = chars_of(p);
    prefix_at(s, pos, &pv)
}

pub open spec fn starts_with(s: Seq<char>, p: Seq<char>) -> bool {
    has_prefix_at(s, 0, p)
}

pub open spec fn ends_with(s: Seq<char>, p: Seq<char>) -> bool {
    p.len() <= s.len() && s.subrange(s.len() - p.len(), s.len() as int) == p
}

pub fn suffix_is(s: &Vec<char>, p: &str) -> (r: bool)
    ensures
        r == ends_with(s@, p@),
{
    let pv = chars_of(p);
    if pv.len() > s.len() {
        return false;
    }
    let r = prefix_at(s, s.len() - pv.len(), &pv);
    r
}

// ---------------------------------------------------------------------
// Trimming
// ---------------------------------------------------------------------
/// `s` without its leading whitespace (`str::trim_start`).
pub open spec fn trim_left(s: Seq<char>) -> Seq<char>
    decreases s.len(),
{
    if s.len() > 0 && is_white(s[0]) {
        trim_left(s.drop_first())
    } else {
        s
    }
}

/// `s` without its trailing whitespace (`str::trim_end`).
pub open spec fn trim_right(s: Seq<char>) -> Seq<char>
    decreases s.len(),
{
    if s.len() > 0 && is_white(s.last()) {
        trim_right(s.drop_last())
    } else {
        s
    }
}

/// `s` without leading and trailing whitespace (`str::trim`).
pub open spec fn trim(s: Seq<char>) -> Seq<char> {
    trim_right(trim_left(s))
}

/// Bounds `(a, b)` with `s[a..b]` the trimmed `s[lo..hi]`.
pub fn trim_bounds(s: &Vec<char>, lo: usize, hi: usize) -> (r: (usize, usize))
    requires
        lo <= hi <= s.len(),
    ensures
        lo <= r.0 <= r.1 <= hi,
        s@.subrange(r.0 as int, r.1 as int) == trim(s@.subrange(lo as int, hi as int)),
        s@.subrange(r.0 as int, hi as int) == trim_left(s@.subrange(lo as int, hi as int)),
{
    let mut i: usize = lo;
    while i < hi && char_is_white(s[i])
        invariant
            lo <= i <= hi <= s.len(),
            trim_left(s@.subrange(lo as int, hi as int)) == trim_left(s@.subrange(i as int, hi as int)),
        decreases hi - i,
    {
        assert(s@.subrange(i as int, hi as int).drop_first() =~= s@.subrange(i + 1, hi as int));
        i = i + 1;
    }
    let mut j: usize = hi;
    while j > i && char_is_white(s[j - 1])
        invariant
            lo <= i <= j <= hi <= s.len(),
            trim_right(s@.subrange(i as int, hi as int)) == trim_right(s@.subrange(i as int, j as int)),
        decreases j - i,
    {
        assert(s@.subrange(i as int, j as int).drop_last() =~= s@.subrange(i as int, j - 1));
        j = j - 1;
    }
    (i, j)
}

pub fn trim_vec(s: &Vec<char>) -> (r: Vec<char>)
    ensures
        r@ == trim(s@),
{
    let (a, b) = trim_bounds(s, 0, s.len());
    assert(s@.subrange(0, s.len() as int) =~= s@);
    sub_vec(s, a, b)
}

pub fn trim_str(s: &str) -> (r: Vec<char>)
    ensures
        r@ == trim(s@),
{
    let v = chars_of(s);
    trim_vec(&v)
}

pub proof fn lemma_trim_left_no_lead(s: Seq<char>)
    ensures
        trim_left(s).len() == 0 || !is_white(trim_left(s)[0]),
    decreases s.len(),
{
    if s.len() > 0 && is_white(s[0]) {
        lemma_trim_left_no_lead(s.drop_first());
    }
}

pub proof fn lemma_trim_right_no_trail(s: Seq<char>)
    ensures
        trim_right(s).len() == 0 || !is_white(trim_right(s).last()),
        trim_right(s).len() <= s.len(),
        trim_right(s) == s.subrange(0, trim_right(s).len() as int),
    decreases s.len(),
{
    if s.len() > 0 && is_white(s.last()) {
        lemma_trim_right_no_trail(s.drop_last());
        assert(s.drop_last().subrange(0, trim_right(s).len() as int) =~= s.subrange(
            0,
            trim_right(s).len() as int,
        ));
    } else {
        assert(s.subrange(0, s.len() as int) =~= s);
    }
}

// ---------------------------------------------------------------------
// Searching
// ---------------------------------------------------------------------
/// Index of the first `c` at or after `i`, or `s.len()` when there is none.
pub open spec fn find_from(s: Seq<char>, i: int, c: char) -> int
    decreases s.len() - i,
{
    if i < 0 || i >= s.len() {
        s.len() as int
    } else if s[i] == c {
        i
    } else {
        find_from(s, i + 1, c)
    }
}

pub proof fn lemma_find_from(s: Seq<char>, i: int, c: char)
    requires
        0 <= i <= s.len(),
    ensures
        i <= find_from(s, i, c) <= s.len(),
        find_from(s, i, c) < s.len() ==> s[find_from(s, i, c)] == c,
        forall|k: int| i <= k < find_from(s, i, c) ==> s[k] != c,
    decreases s.len() - i,
{
    if i < s.len() && s[i] != c {
        lemma_find_from(s, i + 1, c);
    }
}

/// The search for `c` from `i` stops at the first `c`, or at the end
/// when there is none.
pub proof fn lemma_find_first(s: Seq<char>, i: int, k: int, c: char)
    requires
        0 <= i <= k <= s.len(),
        k < s.len() ==> s[k] == c,
        forall|x: int| i <= x < k ==> s[x] != c,
    ensures
        find_from(s, i, c) == k,
    decreases k - i,
{
    if i < k {
        lemma_find_first(s, i + 1, k, c);
    }
}

pub fn find_char(s: &Vec<char>, i: usize, c: char) -> (r: usize)
    requires
        i <= s.len(),
    ensures
        r == find_from(s@, i as int, c),
        i <= r <= s.len(),
{
    let mut k: usize = i;
    while k < s.len() && s[k] != c
        invariant
            i <= k <= s.len(),
            find_from(s@, i as int, c) == find_from(s@, k as int, c),
        decreases s.len() - k,
    {
        k = k + 1;
    }
    k
}

/// Index of the first occurrence of `p` at or after `i`, or `s.len()`.
pub open spec fn find_sub_from(s: Seq<char>, i: int, p: Seq<char>) -> int
    decreases s.len() - i,
{
    if i < 0 || i >= s.len() {
        s.len() as int
    } else if has_prefix_at(s, i, p) {
        i
    } else {
        find_sub_from(s, i + 1, p)
    }
}

pub proof fn lemma_find_sub_from(s: Seq<char>, i: int, p: Seq<char>)
    requires
        0 <= i <= s.len(),
    ensures
        i <= find_sub_from(s, i, p) <= s.len(),
        find_sub_from(s, i, p) < s.len() ==> has_prefix_at(s, find_sub_from(s, i, p), p),
    decreases s.len() - i,
{
    if i < s.len() && !has_prefix_at(s, i, p) {
        lemma_find_sub_from(s, i + 1, p);
    }
}

pub fn find_sub(s: &Vec<char>, i: usize, p: &Vec<char>) -> (r: usize)
    requires
        i <= s.len(),
    ensures
        r == find_sub_from(s@, i as int, p@),
        i <= r <= s.len(),
{
    let mut k: usize = i;
    while k < s.len() && !prefix_at(s, k, p)
        invariant
            i <= k <= s.len(),
            find_sub_from(s@, i as int, p@) == find_sub_from(s@, k as int, p@),
        decreases s.len() - k,
    {
        k = k + 1;
    }
    k
}

// ---------------------------------------------------------------------
// Lines
// ---------------------------------------------------------------------
/// A line without the `\r` of a `\r\n` ending.
pub open spec fn strip_cr(l: Seq<char>) -> Seq<char> {
    if l.len() > 0 && l.last() == '\r' {
        l.drop_last()
    } else {
        l
    }
}

/// The lines of `s[start..]` as `str::lines` yields them: split at `\n`,
/// a `\r` before the `\n` dropped, no empty line after a final `\n`.
pub open spec fn lines_from(s: Seq<char>, start: int) -> Seq<Seq<char>>
    decreases s.len() - start,
{
    if start < 0 || start >= s.len() {
        seq![]
    } else {
        let e = find_from(s, start, '\n');
        proof {
            lemma_find_from(s, start, '\n');
        }
        if e >= s.len() {
            seq![s.subrange(start, s.len() as int)]
        } else {
            seq![strip_cr(s.subrange(start, e))] + lines_from(s, e + 1)
        }
    }
}

pub open spec fn lines(s: Seq<char>) -> Seq<Seq<char>> {
    lines_from(s, 0)
}

/// The views of a list of strings.
pub open spec fn string_views(v: Seq<String>) -> Seq<Seq<char>> {
    Seq::new(v.len(), |i: int| v[i]@)
}

pub open spec fn views_of(v: Seq<Vec<char>>) -> Seq<Seq<char>> {
    Seq::new(v.len(), |i: int| v[i]@)
}

/// The lines of `s`, as `str::lines` splits them.
pub fn split_lines(s: &Vec<char>) -> (r: Vec<Vec<char>>)
    ensures
        views_of(r@) == lines(s@),
{
    let mut r: Vec<Vec<char>> = Vec::new();
    let mut start: usize = 0;
    while start < s.len()
        invariant
            start <= s.len(),
            lines(s@) == views_of(r@) + lines_from(s@, start as int),
        decreases s.len() - start,
    {
        let e = find_char(s, start, '\n');
        proof {
            lemma_find_from(s@, start as int, '\n');
        }
        if e >= s.len() {
            let l = sub_vec(s, start, s.len());
            let ghost old_r = r@;
            r.push(l);
            assert(views_of(r@) =~= views_of(old_r).push(l@));
            assert(lines_from(s@, s.len() as int) =~= Seq::<Seq<char>>::empty());
            start = s.len();
        } else {
            let mut l = sub_vec(s, start, e);
            if l.len() > 0 && l[l.len() - 1] == '\r' {
                l.pop();
                assert(l@ =~= strip_cr(s@.subrange(start as int, e as int)));
            }
            let ghost old_r = r@;
            r.push(l);
            assert(views_of(r@) =~= views_of(old_r).push(l@));
            assert(lines(s@) =~= views_of(r@) + lines_from(s@, e + 1));
            start = e + 1;
        }
    }
    assert(lines_from(s@, start as int) =~= Seq::<Seq<char>>::empty());
    assert(lines(s@) =~= views_of(r@));
    r
}

// ---------------------------------------------------------------------
// Decimal numbers
// ---------------------------------------------------------------------
/// The decimal digit character for `d < 10`.
pub open spec fn digit_char(d: nat) -> char {
    ((d + 48) as u32) as char
}

/// The decimal form of `n`, as `Display` writes an unsigned integer.
pub open spec fn decimal(n: nat) -> Seq<char>
    decreases n,
{
    if n < 10 {
        seq![digit_char(n)]
    } else {
        decimal(n / 10).push(digit_char(n % 10))
    }
}

/// The decimal form of a signed integer: a `-` before the magnitude.
pub open spec fn signed_decimal(n: int) -> Seq<char> {
    if n < 0 {
        seq!['-'] + decimal((-n) as nat)
    } else {
        decimal(n as nat)
    }
}

fn digit(d: u64) -> (r: char)
    requires
        d < 10,
    ensures
        r == digit_char(d as nat),
{
    let b: u8 = (d as u8) + 48;
    b as char
}

/// Appends the decimal form of `n`.
pub fn push_decimal(r: &mut Vec<char>, n: u64)
    ensures
        final(r)@ == old(r)@ + decimal(n as nat),
    decreases n,
{
    if n < 10 {
        r.push(digit(n));
        assert(decimal(n as nat) =~= seq![digit_char(n as nat)]);
    } else {
        push_decimal(r, n / 10);
        r.push(digit(n % 10));
    }
}

/// Appends the decimal form of a signed integer.
pub fn push_signed_decimal(r: &mut Vec<char>, n: i64)
    ensures
        final(r)@ == old(r)@ + signed_decimal(n as int),
{
    if n < 0 {
        r.push('-');
        let m: u64 = if n == i64::MIN {
            9223372036854775808u64
        } else {
            (-n) as u64
        };
        push_decimal(r, m);
        assert(r@ =~= old(r)@ + (seq!['-'] + decimal((-n) as nat)));
    } else {
        push_decimal(r, n as u64);
    }
}

/// Searching past a prefix searches the rest.
pub proof fn lemma_find_from_after(p: Seq<char>, b: Seq<char>, j: int, c: char)
    requires
        0 <= j <= b.len(),
    ensures
        find_from(p + b, p.len() + j, c) == p.len() + find_from(b, j, c),
    decreases b.len() - j,
{
    if j < b.len() {
        assert((p + b)[p.len() + j] == b[j]);
        if b[j] != c {
            lemma_find_from_after(p, b, j + 1, c);
        }
    }
}

/// The lines after a prefix are the lines of the rest.
pub proof fn lemma_lines_after(p: Seq<char>, b: Seq<char>, j: int)
    requires
        0 <= j <= b.len(),
    ensures
        lines_from(p + b, p.len() + j) == lines_from(b, j),
    decreases b.len() - j,
{
    if j < b.len() {
        lemma_find_from_after(p, b, j, '\n');
        lemma_find_from(b, j, '\n');
        let e = find_from(b, j, '\n');
        assert((p + b).subrange(p.len() + j, p.len() + e) =~= b.subrange(j, e));
        if e < b.len() {
            lemma_lines_after(p, b, e + 1);
        } else {
            assert((p + b).subrange(p.len() + j, (p + b).len() as int) =~= b.subrange(j, b.len() as int));
        }
    }
}

/// Searching from `i` skips a stretch without the character.
pub proof fn lemma_find_from_skip(s: Seq<char>, i: int, j: int, c: char)
    requires
        0 <= i <= j <= s.len(),
        forall|k: int| i <= k < j ==> s[k] != c,
    ensures
        find_from(s, i, c) == find_from(s, j, c),
    decreases j - i,
{
    if i < j {
        lemma_find_from_skip(s, i + 1, j, c);
    }
}

/// A line without `\n` followed by `\n` is the first line of the text.
pub proof fn lemma_lines_cons(a: Seq<char>, b: Seq<char>)
    requires
        forall|k: int| 0 <= k < a.len() ==> a[k] != '\n',
    ensures
        lines(a + "\n"@ + b) == seq![strip_cr(a)] + lines(b),
{
    reveal_strlit("\n");
    let s = a + "\n"@ + b;
    let a1 = a + "\n"@;
    assert(s =~= a1 + b);
    lemma_find_from_after(a, "\n"@ + b, 0, '\n');
    assert(("\n"@ + b)[0] == '\n');
    assert(find_from("\n"@ + b, 0, '\n') == 0);
    assert(a + ("\n"@ + b) =~= s);
    assert(s.subrange(0, a.len() as int) =~= a);
    assert forall|k: int| 0 <= k < a.len() implies s[k] != '\n' by {
        assert(s[k] == a[k]);
    }
    lemma_find_from_skip(s, 0, a.len() as int, '\n');
    assert(find_from(s, 0, '\n') == a.len());
    lemma_lines_after(a1, b, 0);
    assert(lines_from(s, a.len() + 1int) == lines_from(b, 0));
}

} // verus!
