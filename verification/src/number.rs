//! Decimal integers as `str::parse` reads them for the integer types.
use vstd::prelude::*;
use crate::scan::{all_digits, digits_value, digits_value_upto};
use crate::text::{char_is_ascii_digit, decimal, digit_char, is_ascii_digit, is_white, signed_decimal};

verus! {

/// The sign of a number text and where its digits start: `+` is allowed,
/// `-` only for signed types.
pub open spec fn sign_split(t: Seq<char>, signed: bool) -> (bool, int) {
    if t.len() > 0 && t[0] == '+' {
        (false, 1)
    } else if t.len() > 0 && t[0] == '-' && signed {
        (true, 1)
    } else {
        (false, 0)
    }
}

/// The integer a text denotes as `str::parse` reads it for an integer type
/// with range `min..=max`: an optional sign, then at least one ASCII digit.
pub open spec fn int_of(t: Seq<char>, signed: bool, min: int, max: int) -> Option<int> {
    let (neg, start) = sign_split(t, signed);
    let d = t.subrange(start, t.len() as int);
    if d.len() == 0 || !all_digits(d) {
        None
    } else {
        let v = if neg { -(digits_value(d) as int) } else { digits_value(d) as int };
        if min <= v <= max {
            Some(v)
        } else {
            None
        }
    }
}

/// Reads `s[lo..hi]` as an integer of the range `min..=max`.
pub fn parse_int(s: &Vec<char>, lo: usize, hi: usize, signed: bool, min: i64, max: i64) -> (r: Option<i64>)
    requires
        lo <= hi <= s.len(),
        min <= 0 <= max,
    ensures
        match r {
            Some(v) => int_of(s@.subrange(lo as int, hi as int), signed, min as int, max as int) == Some(v as int),
            None => int_of(s@.subrange(lo as int, hi as int), signed, min as int, max as int) is None,
        },
{
    let ghost t = s@.subrange(lo as int, hi as int);
    let mut start: usize = lo;
    let mut neg = false;
    if lo < hi && s[lo] == '+' {
        start = lo + 1;
    } else if lo < hi && s[lo] == '-' && signed {
        start = lo + 1;
        neg = true;
    }
    assert(sign_split(t, signed) == (neg, (start - lo) as int));
    assert(t.subrange(start - lo, t.len() as int) =~= s@.subrange(start as int, hi as int));
    if start >= hi {
        assert(s@.subrange(start as int, hi as int).len() == 0);
        assert(int_of(t, signed, min as int, max as int) is None);
        return None;
    }
    let mut i: usize = start;
    while i < hi
        invariant
            lo <= start <= i <= hi <= s.len(),
            t == s@.subrange(lo as int, hi as int),
            sign_split(t, signed) == (neg, (start - lo) as int),
            t.subrange(start - lo, t.len() as int) == s@.subrange(start as int, hi as int),
            forall|k: int| start <= k < i ==> is_ascii_digit(#[trigger] s@[k]),
        decreases hi - i,
    {
        if !char_is_ascii_digit(s[i]) {
            assert(s@.subrange(start as int, hi as int)[i - start] == s@[i as int]);
            return None;
        }
        i = i + 1;
    }
    assert(all_digits(s@.subrange(start as int, hi as int)));
    let limit: u64 = if neg {
        (-(min as i128)) as u64
    } else {
        max as u64
    };
    match digits_value_upto(s, start, hi, limit) {
        Some(v) => {
            if neg {
                Some((-(v as i128)) as i64)
            } else {
                Some(v as i64)
            }
        },
        None => None,
    }
}

/// The decimal form of a number is a non-empty run of digits with that
/// value.
pub proof fn lemma_decimal_digits(n: nat)
    ensures
        decimal(n).len() > 0,
        all_digits(decimal(n)),
        digits_value(decimal(n)) == n,
    decreases n,
{
    if n < 10 {
        let c = digit_char(n);
        assert(((n + 48) as u32) as char as u32 == n + 48);
        assert(c as u32 == n + 48);
        assert(decimal(n) == seq![c]);
        assert(decimal(n).drop_last() =~= Seq::<char>::empty());
        assert(decimal(n).last() == c);
        assert(digits_value(Seq::<char>::empty()) == 0);
        assert(((c as u32) - 48) as nat == n);
        assert(digits_value(decimal(n)) == digits_value(decimal(n).drop_last()) * 10 + ((c as u32) - 48) as nat);
    } else {
        lemma_decimal_digits(n / 10);
        let d = digit_char(n % 10);
        assert((((n % 10) + 48) as u32) as char as u32 == (n % 10) + 48);
        assert(decimal(n).drop_last() =~= decimal(n / 10));
        assert(decimal(n).last() == d);
        assert(((d as u32) - 48) as nat == n % 10);
        assert(digits_value(decimal(n)) == digits_value(decimal(n / 10)) * 10 + n % 10);
        assert(n == (n / 10) * 10 + n % 10) by (nonlinear_arith);
        assert forall|k: int| 0 <= k < decimal(n).len() implies is_ascii_digit(#[trigger] decimal(n)[k]) by {
            if k < decimal(n / 10).len() {
                assert(decimal(n)[k] == decimal(n / 10)[k]);
            }
        }
    }
}

/// Reading back the decimal form of a number in range gives the number.
pub proof fn decimal_round_trip(x: int, signed: bool, min: int, max: int)
    requires
        min <= x <= max,
        x < 0 ==> signed,
    ensures
        int_of(signed_decimal(x), signed, min, max) == Some(x),
        forall|k: int| 0 <= k < signed_decimal(x).len() ==> !is_white(#[trigger] signed_decimal(x)[k]),
        forall|k: int| 0 <= k < signed_decimal(x).len() ==> (is_ascii_digit(#[trigger] signed_decimal(x)[k])
            || signed_decimal(x)[k] == '-'),
        signed_decimal(x).len() > 0,
        is_ascii_digit(signed_decimal(x).last()),
{
    let m: nat = if x < 0 { (-x) as nat } else { x as nat };
    lemma_decimal_digits(m);
    let t = signed_decimal(x);
    assert(is_ascii_digit(decimal(m)[0]));
    assert(is_ascii_digit(decimal(m)[decimal(m).len() - 1]));
    if x < 0 {
        assert(t =~= seq!['-'] + decimal(m));
        assert(t.last() == decimal(m)[decimal(m).len() - 1]);
        assert forall|k: int| 0 <= k < t.len() implies (is_ascii_digit(#[trigger] t[k]) || t[k] == '-') by {
            if k > 0 {
                assert(t[k] == decimal(m)[k - 1]);
            }
        }
        assert(t.subrange(1, t.len() as int) =~= decimal(m));
        assert forall|k: int| 0 <= k < t.len() implies !is_white(#[trigger] t[k]) by {
            if k > 0 {
                assert(t[k] == decimal(m)[k - 1]);
                assert(is_ascii_digit(decimal(m)[k - 1]));
            }
        }
    } else {
        assert(t.subrange(0, t.len() as int) =~= decimal(m));
        assert forall|k: int| 0 <= k < t.len() implies !is_white(#[trigger] t[k]) by {
            assert(is_ascii_digit(decimal(m)[k]));
        }
    }
}

} // verus!
