//! Record-level vocabulary: alarm severities, scan types, field types and
//! the grammar of record links.
use vstd::prelude::*;
use crate::text::{
    ascii_upper, char_is_ascii_digit, char_to_ascii_upper, chars_eq_str, chars_of, ends_with,
    has_prefix_at, is_ascii_digit, is_ascii_upper, is_white, prefix_at_str, seq_ascii_lower,
    seq_ascii_upper, starts_with, string_of_vec, sub_vec, suffix_is, to_ascii_lower, to_ascii_upper,
    trim, trim_right, trim_vec, char_is_white,
};
use crate::number::{decimal_round_trip, int_of, parse_int};
use crate::text::{decimal, signed_decimal, trim_left};

verus! {

/// Field types of the database (DBF_*).
#[derive(Clone, Copy, Debug, PartialEq, Eq, Structural)]
pub enum DbFieldType {
    String,
    Short,
    Float,
    Enum,
    Char,
    Long,
    Double,
}

/// Metadata describing a single field in a record.
#[derive(Debug, Clone)]
pub struct FieldDesc {
    pub name: &'static str,
    pub dbf_type: DbFieldType,
    pub read_only: bool,
}

/// Alarm severity levels matching EPICS base.
#[derive(Clone, Copy, PartialEq, Eq, Debug, Structural)]
pub enum AlarmSeverity {
    NoAlarm,
    Minor,
    Major,
    Invalid,
}

/// The number of a severity (0 to 3).
pub open spec fn severity_code(s: AlarmSeverity) -> u16 {
    match s {
        AlarmSeverity::NoAlarm => 0,
        AlarmSeverity::Minor => 1,
        AlarmSeverity::Major => 2,
        AlarmSeverity::Invalid => 3,
    }
}

/// The severity with a number; numbers above 3 are `Invalid`.
pub open spec fn severity_of(v: u16) -> AlarmSeverity {
    if v == 0 {
        AlarmSeverity::NoAlarm
    } else if v == 1 {
        AlarmSeverity::Minor
    } else if v == 2 {
        AlarmSeverity::Major
    } else {
        AlarmSeverity::Invalid
    }
}

impl AlarmSeverity {
    pub fn from_u16(v: u16) -> (r: Self)
        ensures
            r == severity_of(v),
    {
        match v {
            0 => AlarmSeverity::NoAlarm,
            1 => AlarmSeverity::Minor,
            2 => AlarmSeverity::Major,
            _ => AlarmSeverity::Invalid,
        }
    }

    /// The number of this severity.
    pub fn code(&self) -> (r: u16)
        ensures
            r == severity_code(*self),
    {
        match self {
            AlarmSeverity::NoAlarm => 0,
            AlarmSeverity::Minor => 1,
            AlarmSeverity::Major => 2,
            AlarmSeverity::Invalid => 3,
        }
    }
}

/// Reading a severity back from its number gives the same severity.
pub proof fn severity_number_round_trip(s: AlarmSeverity)
    ensures
        severity_of(severity_code(s)) == s,
{
}

/// Scan types matching EPICS base SCAN field menu.
#[derive(Clone, Copy, PartialEq, Eq, Debug, Hash, Structural)]
pub enum ScanType {
    Passive,
    Event,
    IoIntr,
    Sec10,
    Sec5,
    Sec2,
    Sec1,
    Sec05,
    Sec02,
    Sec01,
}

/// The menu index of a scan type.
pub open spec fn scan_code(s: ScanType) -> u16 {
    match s {
        ScanType::Passive => 0,
        ScanType::Event => 1,
        ScanType::IoIntr => 2,
        ScanType::Sec10 => 3,
        ScanType::Sec5 => 4,
        ScanType::Sec2 => 5,
        ScanType::Sec1 => 6,
        ScanType::Sec05 => 7,
        ScanType::Sec02 => 8,
        ScanType::Sec01 => 9,
    }
}

/// The scan type with a menu index; unknown indices are `Passive`.
pub open spec fn scan_of(v: u16) -> ScanType {
    if v == 1 {
        ScanType::Event
    } else if v == 2 {
        ScanType::IoIntr
    } else if v == 3 {
        ScanType::Sec10
    } else if v == 4 {
        ScanType::Sec5
    } else if v == 5 {
        ScanType::Sec2
    } else if v == 6 {
        ScanType::Sec1
    } else if v == 7 {
        ScanType::Sec05
    } else if v == 8 {
        ScanType::Sec02
    } else if v == 9 {
        ScanType::Sec01
    } else {
        ScanType::Passive
    }
}

/// Reading a scan type back from its menu index gives the same scan type.
pub proof fn scan_number_round_trip(t: ScanType)
    ensures
        scan_of(scan_code(t)) == t,
{
}

/// The scan type a SCAN menu string names (case and surrounding whitespace
/// ignored), or a menu index; `None` for anything else.
pub open spec fn scan_named(s: Seq<char>) -> Option<ScanType> {
    let l = seq_ascii_lower(trim(s));
    if l == "passive"@ {
        Some(ScanType::Passive)
    } else if l == "event"@ {
        Some(ScanType::Event)
    } else if l == "i/o intr"@ || l == "iointr"@ {
        Some(ScanType::IoIntr)
    } else if l == "10 second"@ {
        Some(ScanType::Sec10)
    } else if l == "5 second"@ {
        Some(ScanType::Sec5)
    } else if l == "2 second"@ {
        Some(ScanType::Sec2)
    } else if l == "1 second"@ {
        Some(ScanType::Sec1)
    } else if l == ".5 second"@ || l == "0.5 second"@ {
        Some(ScanType::Sec05)
    } else if l == ".2 second"@ || l == "0.2 second"@ {
        Some(ScanType::Sec02)
    } else if l == ".1 second"@ || l == "0.1 second"@ {
        Some(ScanType::Sec01)
    } else {
        match int_of(l, false, 0, 65535) {
            Some(v) => Some(scan_of(v as u16)),
            None => None,
        }
    }
}

/// The SCAN menu text of a scan type.
pub open spec fn scan_text(t: ScanType) -> Seq<char> {
    match t {
        ScanType::Passive => "Passive"@,
        ScanType::Event => "Event"@,
        ScanType::IoIntr => "I/O Intr"@,
        ScanType::Sec10 => "10 second"@,
        ScanType::Sec5 => "5 second"@,
        ScanType::Sec2 => "2 second"@,
        ScanType::Sec1 => "1 second"@,
        ScanType::Sec05 => ".5 second"@,
        ScanType::Sec02 => ".2 second"@,
        ScanType::Sec01 => ".1 second"@,
    }
}

proof fn lemma_trim_unchanged(t: Seq<char>)
    requires
        t.len() > 0,
        !is_white(t[0]),
        !is_white(t.last()),
    ensures
        trim(t) == t,
{
}

proof fn lemma_lower_is(t: Seq<char>, l: Seq<char>)
    requires
        t.len() == l.len(),
        forall|i: int| 0 <= i < t.len() ==> #[trigger] crate::text::ascii_lower(t[i]) == l[i],
    ensures
        seq_ascii_lower(t) == l,
{
    assert(seq_ascii_lower(t) =~= l);
}

/// A scan type's menu text, and its menu index written in decimal, both
/// read back as that scan type.
pub proof fn scan_text_round_trip(t: ScanType)
    ensures
        scan_named(scan_text(t)) == Some(t),
        scan_named(signed_decimal(scan_code(t) as int)) == Some(t),
{
    reveal_strlit("Passive");
    reveal_strlit("passive");
    reveal_strlit("Event");
    reveal_strlit("event");
    reveal_strlit("I/O Intr");
    reveal_strlit("i/o intr");
    reveal_strlit("iointr");
    reveal_strlit("10 second");
    reveal_strlit("5 second");
    reveal_strlit("2 second");
    reveal_strlit("1 second");
    reveal_strlit(".5 second");
    reveal_strlit("0.5 second");
    reveal_strlit(".2 second");
    reveal_strlit("0.2 second");
    reveal_strlit(".1 second");
    reveal_strlit("0.1 second");
    let x = scan_text(t);
    lemma_trim_unchanged(x);
    match t {
        ScanType::Passive => {
            lemma_lower_is(x, "passive"@);

        },
        ScanType::Event => {
            lemma_lower_is(x, "event"@);

        },
        ScanType::IoIntr => {
            lemma_lower_is(x, "i/o intr"@);

        },
        ScanType::Sec10 => {
            lemma_lower_is(x, x);

        },
        ScanType::Sec5 => {
            lemma_lower_is(x, x);
            assert("5 second"@[0] == '5' && "i/o intr"@[0] == 'i');
        },
        ScanType::Sec2 => {
            lemma_lower_is(x, x);
            assert("2 second"@[0] == '2' && "i/o intr"@[0] == 'i');
            assert("2 second"@[0] == '2' && "5 second"@[0] == '5');
        },
        ScanType::Sec1 => {
            lemma_lower_is(x, x);
            assert("1 second"@[0] == '1' && "i/o intr"@[0] == 'i');
            assert("1 second"@[0] == '1' && "5 second"@[0] == '5');
            assert("1 second"@[0] == '1' && "2 second"@[0] == '2');
        },
        ScanType::Sec05 => {
            lemma_lower_is(x, x);
            assert(".5 second"@[0] == '.' && "10 second"@[0] == '1');
        },
        ScanType::Sec02 => {
            lemma_lower_is(x, x);
            assert(".2 second"@[0] == '.' && "10 second"@[0] == '1');
            assert(".2 second"@[1] == '2' && ".5 second"@[1] == '5');
        },
        ScanType::Sec01 => {
            lemma_lower_is(x, x);
            assert(".1 second"@[0] == '.' && "10 second"@[0] == '1');
            assert(".1 second"@[1] == '1' && ".5 second"@[1] == '5');
            assert(".1 second"@[1] == '1' && ".2 second"@[1] == '2');
        },
    }
    let d = signed_decimal(scan_code(t) as int);
    decimal_round_trip(scan_code(t) as int, false, 0, 65535);
    assert(is_ascii_digit(d[0]) || d[0] == '-');
    lemma_trim_unchanged(d);
    assert forall|i: int| 0 <= i < d.len() implies #[trigger] crate::text::ascii_lower(d[i]) == d[i] by {
        assert(is_ascii_digit(d[i]) || d[i] == '-');
    }
    lemma_lower_is(d, d);
    let l = d;
    assert(l != "passive"@ && l != "event"@ && l != "i/o intr"@ && l != "iointr"@ && l != "10 second"@
        && l != "5 second"@ && l != "2 second"@ && l != "1 second"@ && l != ".5 second"@ && l != "0.5 second"@
        && l != ".2 second"@ && l != "0.2 second"@ && l != ".1 second"@ && l != "0.1 second"@) by {
        assert(l.last() != 'e' && l.last() != 'r' && l.last() != 't' && l.last() != 'd') by {
            assert(is_ascii_digit(l.last()));
        }
        assert("passive"@.last() == 'e');
        assert("event"@.last() == 't');
        assert("i/o intr"@.last() == 'r');
        assert("iointr"@.last() == 'r');
        assert("10 second"@.last() == 'd');
        assert("5 second"@.last() == 'd');
        assert("2 second"@.last() == 'd');
        assert("1 second"@.last() == 'd');
        assert(".5 second"@.last() == 'd');
        assert("0.5 second"@.last() == 'd');
        assert(".2 second"@.last() == 'd');
        assert("0.2 second"@.last() == 'd');
        assert(".1 second"@.last() == 'd');
        assert("0.1 second"@.last() == 'd');
    }
}

/// The period of a periodic scan type in milliseconds.
pub open spec fn scan_period_ms(s: ScanType) -> Option<u64> {
    match s {
        ScanType::Sec10 => Some(10000),
        ScanType::Sec5 => Some(5000),
        ScanType::Sec2 => Some(2000),
        ScanType::Sec1 => Some(1000),
        ScanType::Sec05 => Some(500),
        ScanType::Sec02 => Some(200),
        ScanType::Sec01 => Some(100),
        _ => None,
    }
}

/// A SCAN menu string that names no scan type.
#[derive(Debug, Clone, PartialEq, Eq)]
pub struct UnknownScanType {
    pub text: String,
}

impl ScanType {
    pub fn from_u16(v: u16) -> (r: Self)
        ensures
            r == scan_of(v),
    {
        match v {
            1 => ScanType::Event,
            2 => ScanType::IoIntr,
            3 => ScanType::Sec10,
            4 => ScanType::Sec5,
            5 => ScanType::Sec2,
            6 => ScanType::Sec1,
            7 => ScanType::Sec05,
            8 => ScanType::Sec02,
            9 => ScanType::Sec01,
            _ => ScanType::Passive,
        }
    }

    /// The menu index of this scan type.
    pub fn code(&self) -> (r: u16)
        ensures
            r == scan_code(*self),
    {
        match self {
            ScanType::Passive => 0,
            ScanType::Event => 1,
            ScanType::IoIntr => 2,
            ScanType::Sec10 => 3,
            ScanType::Sec5 => 4,
            ScanType::Sec2 => 5,
            ScanType::Sec1 => 6,
            ScanType::Sec05 => 7,
            ScanType::Sec02 => 8,
            ScanType::Sec01 => 9,
        }
    }

    /// The SCAN menu text of this scan type.
    pub fn menu_text(&self) -> (r: &'static str)
        ensures
            r@ == scan_text(*self),
    {
        match self {
            ScanType::Passive => "Passive",
            ScanType::Event => "Event",
            ScanType::IoIntr => "I/O Intr",
            ScanType::Sec10 => "10 second",
            ScanType::Sec5 => "5 second",
            ScanType::Sec2 => "2 second",
            ScanType::Sec1 => "1 second",
            ScanType::Sec05 => ".5 second",
            ScanType::Sec02 => ".2 second",
            ScanType::Sec01 => ".1 second",
        }
    }

    /// Parse a SCAN menu string; the error carries the trimmed text.
    pub fn from_str(s: &str) -> (r: Result<Self, UnknownScanType>)
        ensures
            match r {
                Ok(t) => scan_named(s@) == Some(t),
                Err(e) => scan_named(s@) is None && e.text@ == trim(s@),
            },
    {
        let t = trim_vec(&chars_of(s));
        let l = to_ascii_lower(&t);
        if chars_eq_str(&l, "passive") {
            Ok(ScanType::Passive)
        } else if chars_eq_str(&l, "event") {
            Ok(ScanType::Event)
        } else if chars_eq_str(&l, "i/o intr") || chars_eq_str(&l, "iointr") {
            Ok(ScanType::IoIntr)
        } else if chars_eq_str(&l, "10 second") {
            Ok(ScanType::Sec10)
        } else if chars_eq_str(&l, "5 second") {
            Ok(ScanType::Sec5)
        } else if chars_eq_str(&l, "2 second") {
            Ok(ScanType::Sec2)
        } else if chars_eq_str(&l, "1 second") {
            Ok(ScanType::Sec1)
        } else if chars_eq_str(&l, ".5 second") || chars_eq_str(&l, "0.5 second") {
            Ok(ScanType::Sec05)
        } else if chars_eq_str(&l, ".2 second") || chars_eq_str(&l, "0.2 second") {
            Ok(ScanType::Sec02)
        } else if chars_eq_str(&l, ".1 second") || chars_eq_str(&l, "0.1 second") {
            Ok(ScanType::Sec01)
        } else {
            match parse_int(&l, 0, l.len(), false, 0, 65535) {
                Some(v) => {
                    assert(l@.subrange(0, l@.len() as int) =~= l@);
                    Ok(ScanType::from_u16(v as u16))
                },
                None => {
                    assert(l@.subrange(0, l@.len() as int) =~= l@);
                    Err(UnknownScanType { text: string_of_vec(&t) })
                },
            }
        }
    }

    /// Return the interval for periodic scan types.
    pub fn interval(&self) -> (r: Option<std::time::Duration>)
        ensures
            r == match scan_period_ms(*self) {
                Some(ms) => Some(duration_of_millis(ms)),
                None => None,
            },
    {
        match self.interval_ms() {
            Some(ms) => Some(duration_from_millis(ms)),
            None => None,
        }
    }

    /// Return the interval in milliseconds for periodic scan types.
    pub fn interval_ms(&self) -> (r: Option<u64>)
        ensures
            r == scan_period_ms(*self),
    {
        match self {
            ScanType::Sec10 => Some(10000),
            ScanType::Sec5 => Some(5000),
            ScanType::Sec2 => Some(2000),
            ScanType::Sec1 => Some(1000),
            ScanType::Sec05 => Some(500),
            ScanType::Sec02 => Some(200),
            ScanType::Sec01 => Some(100),
            _ => None,
        }
    }
}

/// The duration of a number of milliseconds.
pub uninterp spec fn duration_of_millis(ms: u64) -> std::time::Duration;

/// `Duration` is `Copy`; its `clone` returns the same duration.
pub assume_specification[ <std::time::Duration as Clone>::clone ](d: &std::time::Duration) -> (r: std::time::Duration)
    ensures
        r == *d,
;

/// Calls `std::time::Duration::from_millis`; the contract names its result,
/// which depends on the number of milliseconds alone.
#[verifier::external_body]
pub(crate) fn duration_from_millis(ms: u64) -> (d: std::time::Duration)
    ensures
        d == duration_of_millis(ms),
{
    std::time::Duration::from_millis(ms)
}

/// Link processing policy for input/output links.
#[derive(Clone, Copy, Debug, PartialEq, Eq, Structural)]
pub enum LinkProcessPolicy {
    NoProcess,
    ProcessPassive,
    /// CP: subscribe to source; when source changes, process this record.
    ChannelProcess,
}

/// Parsed link address pointing to another record's field.
#[derive(Clone, Debug)]
pub struct LinkAddress {
    pub record: String,
    pub field: String,
    pub policy: LinkProcessPolicy,
}

/// A database link to another record's field.
#[derive(Clone, Debug, PartialEq)]
pub struct DbLink {
    pub record: String,
    pub field: String,
    pub policy: LinkProcessPolicy,
}

/// Parsed link — distinguishes constants, DB links, CA/PVA links, and empty.
#[derive(Clone, Debug, PartialEq)]
pub enum ParsedLink {
    /// No link (an empty link text).
    NoLink,
    Constant(String),
    Db(DbLink),
    Ca(String),
    Pva(String),
}

/// The value of a constant link: a number (kept as its text) or a string.
#[derive(Clone, Debug, PartialEq)]
pub enum ConstantValue {
    Number(String),
    Text(String),
}

/// What a link says.
pub enum LinkModel {
    NoLink,
    Constant(Seq<char>),
    Db(Seq<char>, Seq<char>, LinkProcessPolicy),
    Ca(Seq<char>),
    Pva(Seq<char>),
}

impl ParsedLink {
    pub open spec fn model(&self) -> LinkModel {
        match self {
            ParsedLink::NoLink => LinkModel::NoLink,
            ParsedLink::Constant(s) => LinkModel::Constant(s@),
            ParsedLink::Db(d) => LinkModel::Db(d.record@, d.field@, d.policy),
            ParsedLink::Ca(s) => LinkModel::Ca(s@),
            ParsedLink::Pva(s) => LinkModel::Pva(s@),
        }
    }
}

// ---------------------------------------------------------------------
// Number texts
// ---------------------------------------------------------------------
/// End of the ASCII digits that start at `i`.
pub open spec fn digit_run(t: Seq<char>, i: int) -> int
    decreases t.len() - i,
{
    if i < 0 || i >= t.len() || !is_ascii_digit(t[i]) {
        i
    } else {
        digit_run(t, i + 1)
    }
}

pub proof fn lemma_digit_run(t: Seq<char>, i: int)
    requires
        0 <= i <= t.len(),
    ensures
        i <= digit_run(t, i) <= t.len(),
    decreases t.len() - i,
{
    if i < t.len() && is_ascii_digit(t[i]) {
        lemma_digit_run(t, i + 1);
    }
}

/// `t[i..]` is a decimal exponent: `e` or `E`, an optional sign, digits.
pub open spec fn is_exponent(t: Seq<char>, i: int) -> bool {
    0 <= i < t.len() && (t[i] == 'e' || t[i] == 'E') && {
        let j = if i + 1 < t.len() && (t[i + 1] == '+' || t[i + 1] == '-') { i + 2 } else { i + 1 };
        j < t.len() && digit_run(t, j) == t.len()
    }
}

/// `t[i..]` is the unsigned part of a decimal number: digits with an
/// optional fraction (at least one digit in all), then an optional exponent.
pub open spec fn is_decimal_body(t: Seq<char>, i: int) -> bool {
    let a = digit_run(t, i);
    let (b, digits) = if a < t.len() && t[a] == '.' {
        (digit_run(t, a + 1), (a - i) + (digit_run(t, a + 1) - (a + 1)))
    } else {
        (a, a - i)
    };
    digits > 0 && (b == t.len() || is_exponent(t, b))
}

/// The text reads as an `f64` (`str::parse::<f64>` succeeds): an optional
/// sign, then `inf`, `infinity`, `nan` in any case, or a decimal number.
pub open spec fn is_float_text(t: Seq<char>) -> bool {
    let i = if t.len() > 0 && (t[0] == '+' || t[0] == '-') { 1int } else { 0int };
    let rest = seq_ascii_lower(t.subrange(i, t.len() as int));
    rest == "inf"@ || rest == "infinity"@ || rest == "nan"@ || is_decimal_body(t, i)
}

fn digit_run_exec(t: &Vec<char>, i: usize) -> (r: usize)
    requires
        i <= t.len(),
    ensures
        r == digit_run(t@, i as int),
        i <= r <= t.len(),
{
    let mut k = i;
    while k < t.len() && char_is_ascii_digit(t[k])
        invariant
            i <= k <= t.len(),
            digit_run(t@, i as int) == digit_run(t@, k as int),
        decreases t.len() - k,
    {
        k = k + 1;
    }
    k
}

/// Whether the text reads as an `f64`.
pub fn float_text(t: &Vec<char>) -> (r: bool)
    ensures
        r == is_float_text(t@),
{
    let i: usize = if t.len() > 0 && (t[0] == '+' || t[0] == '-') {
        1
    } else {
        0
    };
    let rest = to_ascii_lower(&sub_vec(t, i, t.len()));
    if chars_eq_str(&rest, "inf") || chars_eq_str(&rest, "infinity") || chars_eq_str(&rest, "nan") {
        return true;
    }
    let a = digit_run_exec(t, i);
    let mut b = a;
    let mut digits: usize = a - i;
    if a < t.len() && t[a] == '.' {
        b = digit_run_exec(t, a + 1);
        digits = digits + (b - (a + 1));
    }
    if digits == 0 {
        return false;
    }
    if b == t.len() {
        return true;
    }
    if t[b] == 'e' || t[b] == 'E' {
        let j = if b + 1 < t.len() && (t[b + 1] == '+' || t[b + 1] == '-') {
            b + 2
        } else {
            b + 1
        };
        j < t.len() && digit_run_exec(t, j) == t.len()
    } else {
        false
    }
}

// ---------------------------------------------------------------------
// Links
// ---------------------------------------------------------------------
/// The link modifiers that may trail a link, in the order they are tried.
pub open spec fn strip_modifiers(t: Seq<char>, policy: LinkProcessPolicy) -> (Seq<char>, LinkProcessPolicy)
    decreases t.len(),
{
    let u = trim_right(t);
    proof {
        crate::text::lemma_trim_right_no_trail(t);
    }
    if ends_with(u, " NMS"@) && u.len() >= 4 {
        strip_modifiers(u.subrange(0, u.len() - 4), policy)
    } else if ends_with(u, " MS"@) && u.len() >= 3 {
        strip_modifiers(u.subrange(0, u.len() - 3), policy)
    } else if ends_with(u, " MSS"@) && u.len() >= 4 {
        strip_modifiers(u.subrange(0, u.len() - 4), policy)
    } else if ends_with(u, " MSI"@) && u.len() >= 4 {
        strip_modifiers(u.subrange(0, u.len() - 4), policy)
    } else if ends_with(u, " NPP"@) && u.len() >= 4 {
        strip_modifiers(u.subrange(0, u.len() - 4), LinkProcessPolicy::NoProcess)
    } else if ends_with(u, " CP"@) && u.len() >= 3 {
        strip_modifiers(u.subrange(0, u.len() - 3), LinkProcessPolicy::ChannelProcess)
    } else if ends_with(u, " CPP"@) && u.len() >= 4 {
        strip_modifiers(u.subrange(0, u.len() - 4), LinkProcessPolicy::ChannelProcess)
    } else if ends_with(u, " PP"@) && u.len() >= 3 {
        strip_modifiers(u.subrange(0, u.len() - 3), LinkProcessPolicy::ProcessPassive)
    } else {
        (u, policy)
    }
}

/// Index of the last `.` in `t`, or -1.
pub open spec fn last_dot(t: Seq<char>) -> int
    decreases t.len(),
{
    if t.len() == 0 {
        -1
    } else if t.last() == '.' {
        t.len() - 1
    } else {
        last_dot(t.drop_last())
    }
}

pub proof fn lemma_last_dot(t: Seq<char>)
    ensures
        -1 <= last_dot(t) < t.len(),
        last_dot(t) >= 0 ==> t[last_dot(t)] == '.',
        forall|k: int| last_dot(t) < k < t.len() ==> t[k] != '.',
    decreases t.len(),
{
    if t.len() > 0 && t.last() != '.' {
        let dt = t.drop_last();
        lemma_last_dot(dt);
        assert forall|k: int| last_dot(t) < k < t.len() implies t[k] != '.' by {
            if k < dt.len() {
                assert(dt[k] == t[k]);
            }
        }
    }
}

/// A field part of `REC.FIELD`: one to four ASCII letters once upper-cased.
pub open spec fn valid_field(f: Seq<char>) -> bool {
    let u = seq_ascii_upper(f);
    u.len() > 0 && u.len() <= 4 && forall|k: int| 0 <= k < u.len() ==> is_ascii_upper(#[trigger] u[k])
}

/// The link a link text denotes.
pub open spec fn link_meaning(s: Seq<char>) -> LinkModel {
    let t = trim(s);
    if t.len() == 0 {
        LinkModel::NoLink
    } else if starts_with(t, "ca://"@) {
        LinkModel::Ca(t.subrange(5, t.len() as int))
    } else if starts_with(t, "pva://"@) {
        LinkModel::Pva(t.subrange(6, t.len() as int))
    } else {
        let (part, policy) = strip_modifiers(t, LinkProcessPolicy::ProcessPassive);
        if is_float_text(part) {
            LinkModel::Constant(part)
        } else if part.len() >= 2 && part[0] == '"' && part.last() == '"' {
            LinkModel::Constant(part.subrange(1, part.len() - 1))
        } else {
            let d = last_dot(part);
            if d >= 0 && valid_field(part.subrange(d + 1, part.len() as int)) {
                LinkModel::Db(
                    part.subrange(0, d),
                    seq_ascii_upper(part.subrange(d + 1, part.len() as int)),
                    policy,
                )
            } else {
                LinkModel::Db(part, "VAL"@, policy)
            }
        }
    }
}

fn strip_suffix_len(u: &Vec<char>, suffix: &str) -> (r: bool)
    ensures
        r == (ends_with(u@, suffix@) && u@.len() >= suffix@.len()),
{
    suffix_is(u, suffix)
}

/// Parse a link string into a ParsedLink (v2 — distinguishes constants from DB links).
pub fn parse_link_v2(s: &str) -> (r: ParsedLink)
    ensures
        r.model() == link_meaning(s@),
{
    let t = trim_vec(&chars_of(s));
    if t.len() == 0 {
        return ParsedLink::NoLink;
    }
    proof {
        reveal_strlit("ca://");
        reveal_strlit("pva://");
    }
    if prefix_at_str(&t, 0, "ca://") {
        return ParsedLink::Ca(string_of_vec(&sub_vec(&t, 5, t.len())));
    }
    if prefix_at_str(&t, 0, "pva://") {
        return ParsedLink::Pva(string_of_vec(&sub_vec(&t, 6, t.len())));
    }
    let mut part = t;
    let mut policy = LinkProcessPolicy::ProcessPassive;
    proof {
        reveal_strlit(" NMS");
        reveal_strlit(" MS");
        reveal_strlit(" MSS");
        reveal_strlit(" MSI");
        reveal_strlit(" NPP");
        reveal_strlit(" CP");
        reveal_strlit(" CPP");
        reveal_strlit(" PP");
    }
    loop
        invariant
            strip_modifiers(t@, LinkProcessPolicy::ProcessPassive) == strip_modifiers(part@, policy),
        ensures
            strip_modifiers(t@, LinkProcessPolicy::ProcessPassive) == (part@, policy),
        decreases part@.len(),
    {
        proof {
            reveal_strlit(" NMS");
            reveal_strlit(" MS");
            reveal_strlit(" MSS");
            reveal_strlit(" MSI");
            reveal_strlit(" NPP");
            reveal_strlit(" CP");
            reveal_strlit(" CPP");
            reveal_strlit(" PP");
        }
        let mut j = part.len();
        assert(part@.subrange(0, part@.len() as int) =~= part@);
        while j > 0 && char_is_white(part[j - 1])
            invariant
                j <= part@.len(),
                trim_right(part@) == trim_right(part@.subrange(0, j as int)),
            decreases j,
        {
            assert(part@.subrange(0, j as int).drop_last() =~= part@.subrange(0, j - 1));
            j = j - 1;
        }
        proof {
            assert(part@.subrange(0, part@.len() as int) =~= part@);
        }
        let u = sub_vec(&part, 0, j);
        proof {
            if u@.len() > 0 {
                assert(u@.last() == part@[j - 1]);
            }
            assert(trim_right(u@) == u@);
        }
        if strip_suffix_len(&u, " NMS") {
            part = sub_vec(&u, 0, u.len() - 4);
        } else if strip_suffix_len(&u, " MS") {
            part = sub_vec(&u, 0, u.len() - 3);
        } else if strip_suffix_len(&u, " MSS") {
            part = sub_vec(&u, 0, u.len() - 4);
        } else if strip_suffix_len(&u, " MSI") {
            part = sub_vec(&u, 0, u.len() - 4);
        } else if strip_suffix_len(&u, " NPP") {
            part = sub_vec(&u, 0, u.len() - 4);
            policy = LinkProcessPolicy::NoProcess;
        } else if strip_suffix_len(&u, " CP") {
            part = sub_vec(&u, 0, u.len() - 3);
            policy = LinkProcessPolicy::ChannelProcess;
        } else if strip_suffix_len(&u, " CPP") {
            part = sub_vec(&u, 0, u.len() - 4);
            policy = LinkProcessPolicy::ChannelProcess;
        } else if strip_suffix_len(&u, " PP") {
            part = sub_vec(&u, 0, u.len() - 3);
            policy = LinkProcessPolicy::ProcessPassive;
        } else {
            part = u;
            break;
        }
    }
    assert(strip_modifiers(t@, LinkProcessPolicy::ProcessPassive) == (part@, policy));
    if float_text(&part) {
        return ParsedLink::Constant(string_of_vec(&part));
    }
    if part.len() >= 2 && part[0] == '"' && part[part.len() - 1] == '"' {
        return ParsedLink::Constant(string_of_vec(&sub_vec(&part, 1, part.len() - 1)));
    }
    let mut d = part.len();
    assert(part@.subrange(0, part@.len() as int) =~= part@);
    while d > 0 && part[d - 1] != '.'
        invariant
            d <= part@.len(),
            last_dot(part@) == last_dot(part@.subrange(0, d as int)),
        decreases d,
    {
        assert(part@.subrange(0, d as int).drop_last() =~= part@.subrange(0, d - 1));
        d = d - 1;
    }
    proof {
        assert(part@.subrange(0, part@.len() as int) =~= part@);
        if d > 0 {
            assert(part@.subrange(0, d as int).last() == part@[d - 1]);
        }
    }
    if d > 0 {
        let dot = d - 1;
        let field = to_ascii_upper(&sub_vec(&part, dot + 1, part.len()));
        let mut ok = field.len() > 0 && field.len() <= 4;
        let mut k: usize = 0;
        while ok && k < field.len()
            invariant
                k <= field@.len(),
                ok ==> forall|m: int| 0 <= m < k ==> is_ascii_upper(#[trigger] field@[m]),
                !ok ==> !valid_field(part@.subrange(dot + 1, part@.len() as int)),
                field@ == seq_ascii_upper(part@.subrange(dot + 1, part@.len() as int)),
                ok ==> field@.len() > 0 && field@.len() <= 4,
            decreases field.len() - k,
        {
            if !('A' <= field[k] && field[k] <= 'Z') {
                ok = false;
            }
            k = k + 1;
        }
        if ok {
            return ParsedLink::Db(
                DbLink {
                    record: string_of_vec(&sub_vec(&part, 0, dot)),
                    field: string_of_vec(&field),
                    policy,
                },
            );
        }
    }
    ParsedLink::Db(DbLink { record: string_of_vec(&part), field: string_of_vec(&chars_of("VAL")), policy })
}

/// Parse a link string into a LinkAddress (legacy wrapper around parse_link_v2).
/// Formats: "REC.FIELD", "REC", "REC.FIELD PP", "REC.FIELD NPP", "" → None
pub fn parse_link(s: &str) -> (r: Option<LinkAddress>)
    ensures
        match r {
            Some(a) => link_meaning(s@) == LinkModel::Db(a.record@, a.field@, a.policy),
            None => !(link_meaning(s@) is Db),
        },
{
    match parse_link_v2(s) {
        ParsedLink::Db(db) => Some(LinkAddress { record: db.record, field: db.field, policy: db.policy }),
        _ => None,
    }
}

impl ParsedLink {
    /// The constant of a constant link: a number when its text reads as a
    /// number, else a string.
    pub fn constant_value(&self) -> (r: Option<ConstantValue>)
        ensures
            match self {
                ParsedLink::Constant(s) => match r {
                    Some(ConstantValue::Number(t)) => is_float_text(s@) && t@ == s@,
                    Some(ConstantValue::Text(t)) => !is_float_text(s@) && t@ == s@,
                    None => false,
                },
                _ => r is None,
            },
    {
        match self {
            ParsedLink::Constant(s) => {
                let v = chars_of(s.as_str());
                if float_text(&v) {
                    Some(ConstantValue::Number(s.clone()))
                } else {
                    Some(ConstantValue::Text(s.clone()))
                }
            },
            _ => None,
        }
    }

    pub fn is_db(&self) -> (r: bool)
        ensures
            r == (*self is Db),
    {
        match self {
            ParsedLink::Db(_) => true,
            _ => false,
        }
    }
}

/// The integer and string kinds of a PV value; the floating-point kinds
/// are held by the floating-point side of the server.
#[derive(Debug, Clone, PartialEq)]
pub enum FieldValue {
    String(String),
    Short(i16),
    Long(i32),
    Enum(u16),
    Char(u8),
    ShortArray(Vec<i16>),
    LongArray(Vec<i32>),
    EnumArray(Vec<u16>),
    CharArray(Vec<u8>),
}

/// The alarm severities of the four analog alarm limits (HIHI, HIGH, LOW,
/// LOLO) of a record with analog alarms.
#[derive(Clone, Copy, Debug, PartialEq, Eq, Structural)]
pub struct AnalogSeverities {
    pub hhsv: AlarmSeverity,
    pub hsv: AlarmSeverity,
    pub lsv: AlarmSeverity,
    pub llsv: AlarmSeverity,
}

/// Fields shared by all records: alarm state, scanning, links, device type,
/// access security group and processing flags, and the severities of the
/// analog alarm limits of a record that has them.  The timestamp and the
/// floating-point analog alarm limits, hysteresis and last-posted values are
/// held beside this struct by the floating-point side of the server.
#[derive(Clone, Debug)]
pub struct CommonFields {
    /// Alarm state (current/result).
    pub sevr: AlarmSeverity,
    pub stat: u16,
    /// New alarm state, transferred by `rec_gbl_reset_alarms`.
    pub nsev: AlarmSeverity,
    pub nsta: u16,
    /// Alarm acknowledgement.
    pub acks: AlarmSeverity,
    pub ackt: bool,
    pub udf: bool,
    pub udfs: AlarmSeverity,
    pub scan: ScanType,
    pub sscn: ScanType,
    pub pini: bool,
    pub tpro: bool,
    pub bkpt: u8,
    /// Links (raw strings).
    pub flnk: String,
    pub inp: String,
    pub out: String,
    pub dtyp: String,
    pub tse: i16,
    pub tsel: String,
    pub asg: String,
    pub desc: String,
    pub phas: i16,
    pub evnt: i16,
    pub prio: i16,
    pub disv: i16,
    pub disa: i16,
    pub sdis: String,
    pub diss: AlarmSeverity,
    /// Re-entrance counter.
    pub lcnt: i16,
    pub disp: bool,
    pub putf: bool,
    pub rpro: bool,
    /// The analog alarm severities; `None` for a record without analog
    /// alarms.
    pub analog_sevs: Option<AnalogSeverities>,
}

/// The values a fresh record starts with.
pub open spec fn is_default_common(c: CommonFields) -> bool {
    &&& c.sevr == AlarmSeverity::NoAlarm && c.stat == 0
    &&& c.nsev == AlarmSeverity::NoAlarm && c.nsta == 0
    &&& c.acks == AlarmSeverity::NoAlarm && c.ackt
    &&& c.udf && c.udfs == AlarmSeverity::Invalid
    &&& c.scan == ScanType::Passive && c.sscn == ScanType::Passive
    &&& !c.pini && !c.tpro && c.bkpt == 0
    &&& c.flnk@.len() == 0 && c.inp@.len() == 0 && c.out@.len() == 0 && c.dtyp@.len() == 0
    &&& c.tse == 0 && c.tsel@.len() == 0
    &&& c.asg@ == "DEFAULT"@ && c.desc@.len() == 0
    &&& c.phas == 0 && c.evnt == 0 && c.prio == 0
    &&& c.disv == 1 && c.disa == 0 && c.sdis@.len() == 0 && c.diss == AlarmSeverity::NoAlarm
    &&& c.lcnt == 0 && !c.disp && !c.putf && !c.rpro
    &&& c.analog_sevs is None
}

impl Default for CommonFields {
    fn default() -> (r: Self)
        ensures
            is_default_common(r),
    {
        CommonFields {
            sevr: AlarmSeverity::NoAlarm,
            stat: 0,
            nsev: AlarmSeverity::NoAlarm,
            nsta: 0,
            acks: AlarmSeverity::NoAlarm,
            ackt: true,
            udf: true,
            udfs: AlarmSeverity::Invalid,
            scan: ScanType::Passive,
            sscn: ScanType::Passive,
            pini: false,
            tpro: false,
            bkpt: 0,
            flnk: String::new(),
            inp: String::new(),
            out: String::new(),
            dtyp: String::new(),
            tse: 0,
            tsel: String::new(),
            asg: "DEFAULT".to_owned(),
            desc: String::new(),
            phas: 0,
            evnt: 0,
            prio: 0,
            disv: 1,
            disa: 0,
            sdis: String::new(),
            diss: AlarmSeverity::NoAlarm,
            lcnt: 0,
            disp: false,
            putf: false,
            rpro: false,
            analog_sevs: None,
        }
    }
}

/// Identity of the client driving a write: user and host for access
/// security, and the peer address for audit.
#[derive(Debug, Clone, Default)]
pub struct WriteContext {
    pub user: String,
    pub host: String,
    pub peer: String,
}

/// Result of setting a common field, indicating what scan index updates are needed.
#[derive(Clone, Debug, PartialEq, Eq)]
pub enum CommonFieldPutResult {
    NoChange,
    ScanChanged { old_scan: ScanType, new_scan: ScanType, phas: i16 },
    PhasChanged { scan: ScanType, old_phas: i16, new_phas: i16 },
}

} // verus!
