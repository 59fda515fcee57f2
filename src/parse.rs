//! Reading dates (`YYYY-MM-DD`) and decimal amounts (`-12.34`) from text.
use vstd::prelude::*;
use vstd::string::StringSliceAdditionalSpecFns;
use crate::model::{Date, days_in_month, days_in_month_exec};

verus! {

pub open spec fn is_digit(b: u8) -> bool {
    48 <= b <= 57
}

pub open spec fn digit_value(b: u8) -> int {
    b as int - 48
}

pub open spec fn all_digits(s: Seq<u8>) -> bool {
    forall|i: int| 0 <= i < s.len() ==> is_digit(#[trigger] s[i])
}

/// The number that a run of decimal digits writes.
pub open spec fn digits_value(s: Seq<u8>) -> int
    decreases s.len(),
{
    if s.len() == 0 {
        0
    } else {
        digits_value(s.drop_last()) * 10 + digit_value(s.last())
    }
}

pub open spec fn pow10(n: nat) -> int
    decreases n,
{
    if n == 0 { 1 } else { 10 * pow10((n - 1) as nat) }
}

/// The date that `s` writes as `YYYY-MM-DD`, if it is a calendar date.
pub open spec fn date_of(s: Seq<u8>) -> Option<Date> {
    if s.len() == 10 && is_digit(s[0]) && is_digit(s[1]) && is_digit(s[2]) && is_digit(s[3])
        && s[4] == 45u8 && is_digit(s[5]) && is_digit(s[6]) && s[7] == 45u8 && is_digit(s[8])
        && is_digit(s[9]) {
        let y = digits_value(s.subrange(0, 4));
        let m = digits_value(s.subrange(5, 7));
        let d = digits_value(s.subrange(8, 10));
        if 1 <= m <= 12 && 1 <= d <= days_in_month(y, m) {
            Some(Date { year: y as u16, month: m as u8, day: d as u8 })
        } else {
            None
        }
    } else {
        None
    }
}

/// The longest run of digits accepted before the decimal point.
pub const MAX_INTEGER_DIGITS: usize = 15;

pub open spec fn integer_part_ok(s: Seq<u8>) -> bool {
    1 <= s.len() <= MAX_INTEGER_DIGITS && all_digits(s)
}

/// The number of cents that an unsigned amount writes: digits, optionally followed by
/// a point and one or two digits.
pub open spec fn unsigned_cents_of(s: Seq<u8>) -> Option<int> {
    let n = s.len() as int;
    if integer_part_ok(s) {
        Some(digits_value(s) * 100)
    } else if n >= 3 && s[n - 2] == 46u8 && is_digit(s[n - 1]) && integer_part_ok(
        s.subrange(0, n - 2),
    ) {
        Some(digits_value(s.subrange(0, n - 2)) * 100 + digit_value(s[n - 1]) * 10)
    } else if n >= 4 && s[n - 3] == 46u8 && is_digit(s[n - 2]) && is_digit(s[n - 1])
        && integer_part_ok(s.subrange(0, n - 3)) {
        Some(
            digits_value(s.subrange(0, n - 3)) * 100 + digit_value(s[n - 2]) * 10 + digit_value(
                s[n - 1],
            ),
        )
    } else {
        None
    }
}

/// The number of cents that `s` writes, with an optional leading minus sign.
pub open spec fn cents_of(s: Seq<u8>) -> Option<int> {
    if s.len() > 0 && s[0] == 45u8 {
        match unsigned_cents_of(s.skip(1)) {
            Some(v) => Some(-v),
            None => None,
        }
    } else {
        unsigned_cents_of(s)
    }
}

proof fn lemma_digits_bound(s: Seq<u8>)
    requires
        all_digits(s),
    ensures
        0 <= digits_value(s) < pow10(s.len()),
    decreases s.len(),
{
    if s.len() > 0 {
        let t = s.drop_last();
        assert(all_digits(t)) by {
            assert forall|i: int| 0 <= i < t.len() implies is_digit(#[trigger] t[i]) by {
                assert(t[i] == s[i]);
            }
        }
        lemma_digits_bound(t);
        let a = digits_value(t);
        let p = pow10(t.len());
        assert(is_digit(s[s.len() - 1]));
        assert(a * 10 + digit_value(s.last()) < 10 * p) by (nonlinear_arith)
            requires
                0 <= a < p,
                0 <= digit_value(s.last()) <= 9,
        ;
    }
}

proof fn lemma_pow10_15()
    ensures
        pow10(15) == 1_000_000_000_000_000,
{
    reveal_with_fuel(pow10, 16);
}

proof fn lemma_pow10_mono(a: nat, b: nat)
    requires
        a <= b,
    ensures
        1 <= pow10(a) <= pow10(b),
    decreases b,
{
    if b == 0 {
    } else if a == b {
        lemma_pow10_mono(0, (b - 1) as nat);
    } else {
        lemma_pow10_mono(a, (b - 1) as nat);
    }
}

/// Reads the digits `b[lo..hi]`; `None` when one of them is not a digit.
fn read_digits(b: &[u8], lo: usize, hi: usize) -> (r: Option<u64>)
    requires
        lo <= hi <= b@.len(),
        hi - lo <= MAX_INTEGER_DIGITS,
    ensures
        r.is_some() == all_digits(b@.subrange(lo as int, hi as int)),
        r matches Some(v) ==> v as int == digits_value(b@.subrange(lo as int, hi as int)),
{
    let mut acc: u64 = 0;
    let mut i: usize = lo;
    while i < hi
        invariant
            lo <= i <= hi <= b@.len(),
            hi - lo <= MAX_INTEGER_DIGITS,
            all_digits(b@.subrange(lo as int, i as int)),
            acc as int == digits_value(b@.subrange(lo as int, i as int)),
        decreases hi - i,
    {
        let c = b[i];
        if c < 48 || c > 57 {
            assert(!is_digit(b@.subrange(lo as int, hi as int)[i - lo]));
            return None;
        }
        proof {
            let s = b@.subrange(lo as int, i as int);
            lemma_digits_bound(s);
            lemma_pow10_mono(s.len(), 14);
            reveal_with_fuel(pow10, 16);
            assert(b@.subrange(lo as int, i + 1).drop_last() =~= s);
        }
        acc = acc * 10 + (c - 48) as u64;
        i = i + 1;
        assert(all_digits(b@.subrange(lo as int, i as int))) by {
            let t = b@.subrange(lo as int, i as int);
            assert forall|k: int| 0 <= k < t.len() implies is_digit(#[trigger] t[k]) by {
                if k < t.len() - 1 {
                    assert(t[k] == b@.subrange(lo as int, i - 1)[k]);
                }
            }
        }
    }
    Some(acc)
}

/// Reads a date written `YYYY-MM-DD`.
pub fn parse_date(s: &str) -> (r: Option<Date>)
    ensures
        r == date_of(s.spec_bytes()),
        r matches Some(d) ==> d.valid(),
{
    let b = s.as_bytes();
    if b.len() != 10 || b[4] != 45 || b[7] != 45 {
        return None;
    }
    let y = read_digits(b, 0, 4);
    let m = read_digits(b, 5, 7);
    let d = read_digits(b, 8, 10);
    proof {
        let t = b@;
        assert(all_digits(t.subrange(0, 4)) <==> (is_digit(t[0]) && is_digit(t[1]) && is_digit(t[2]) && is_digit(t[3]))) by {
            if is_digit(t[0]) && is_digit(t[1]) && is_digit(t[2]) && is_digit(t[3]) {
                assert forall|k: int| 0 <= k < 4 implies is_digit(#[trigger] t.subrange(0, 4)[k]) by {
                    assert(t.subrange(0, 4)[k] == t[k]);
                }
            }
            assert(t.subrange(0, 4)[0] == t[0]);
            assert(t.subrange(0, 4)[1] == t[1]);
            assert(t.subrange(0, 4)[2] == t[2]);
            assert(t.subrange(0, 4)[3] == t[3]);
        }
        assert(all_digits(t.subrange(5, 7)) <==> (is_digit(t[5]) && is_digit(t[6]))) by {
            assert(t.subrange(5, 7)[0] == t[5]);
            assert(t.subrange(5, 7)[1] == t[6]);
        }
        assert(all_digits(t.subrange(8, 10)) <==> (is_digit(t[8]) && is_digit(t[9]))) by {
            assert(t.subrange(8, 10)[0] == t[8]);
            assert(t.subrange(8, 10)[1] == t[9]);
        }
    }
    match (y, m, d) {
        (Some(y), Some(m), Some(d)) => {
            proof {
                lemma_digits_bound(b@.subrange(0, 4));
                lemma_digits_bound(b@.subrange(5, 7));
                lemma_digits_bound(b@.subrange(8, 10));
                reveal_with_fuel(pow10, 5);
            }
            let y = y as u16;
            let m = m as u8;
            let d = d as u8;
            if 1 <= m && m <= 12 && 1 <= d && d <= days_in_month_exec(y, m) {
                Some(Date { year: y, month: m, day: d })
            } else {
                None
            }
        },
        _ => None,
    }
}

/// Reads an unsigned amount of `b[lo..]` in cents.
fn read_unsigned_cents(b: &[u8], lo: usize) -> (r: Option<i64>)
    requires
        lo <= b@.len(),
    ensures
        r matches Some(v) ==> unsigned_cents_of(b@.skip(lo as int)) == Some(v as int),
        r is None ==> unsigned_cents_of(b@.skip(lo as int)) is None,
{
    let ghost s = b@.skip(lo as int);
    let n = b.len() - lo;
    let hi = b.len();
    proof {
        lemma_pow10_15();
    }
    if 1 <= n && n <= MAX_INTEGER_DIGITS {
        let v = read_digits(b, lo, hi);
        assert(b@.subrange(lo as int, hi as int) =~= s);
        if let Some(v) = v {
            proof {
                lemma_digits_bound(s);
                lemma_pow10_mono(s.len(), 15);
            }
            return Some((v * 100) as i64);
        }
    }
    assert(!integer_part_ok(s));
    if n >= 3 && b[hi - 2] == 46 && 48 <= b[hi - 1] && b[hi - 1] <= 57 && n - 2 <= MAX_INTEGER_DIGITS {
        let v = read_digits(b, lo, hi - 2);
        assert(b@.subrange(lo as int, hi - 2) =~= s.subrange(0, n - 2));
        if let Some(v) = v {
            proof {
                lemma_digits_bound(s.subrange(0, n - 2));
                lemma_pow10_mono((n - 2) as nat, 15);
            }
            return Some((v * 100 + ((b[hi - 1] - 48) as u64) * 10) as i64);
        }
    }
    assert(!(n >= 3 && s[n - 2] == 46u8 && is_digit(s[n - 1]) && integer_part_ok(s.subrange(0, n - 2))));
    if n >= 4 && b[hi - 3] == 46 && 48 <= b[hi - 2] && b[hi - 2] <= 57 && 48 <= b[hi - 1]
        && b[hi - 1] <= 57 && n - 3 <= MAX_INTEGER_DIGITS {
        let v = read_digits(b, lo, hi - 3);
        assert(b@.subrange(lo as int, hi - 3) =~= s.subrange(0, n - 3));
        if let Some(v) = v {
            proof {
                lemma_digits_bound(s.subrange(0, n - 3));
                lemma_pow10_mono((n - 3) as nat, 15);
            }
            return Some((v * 100 + ((b[hi - 2] - 48) as u64) * 10 + (b[hi - 1] - 48) as u64) as i64);
        }
    }
    None
}

/// Reads a decimal amount (`45.5`, `-12.34`, `300`) as a number of cents.
pub fn parse_amount(s: &str) -> (r: Option<i64>)
    ensures
        r matches Some(v) ==> cents_of(s.spec_bytes()) == Some(v as int),
        r is None ==> cents_of(s.spec_bytes()) is None,
{
    let b = s.as_bytes();
    if b.len() > 0 && b[0] == 45 {
        match read_unsigned_cents(b, 1) {
            Some(v) => {
                proof {
                    lemma_unsigned_cents_bound(b@.skip(1));
                }
                Some(-v)
            },
            None => None,
        }
    } else {
        assert(b@.skip(0) =~= b@);
        read_unsigned_cents(b, 0)
    }
}

proof fn lemma_unsigned_cents_bound(s: Seq<u8>)
    ensures
        unsigned_cents_of(s) matches Some(v) ==> 0 <= v < 100 * pow10(15),
{
    lemma_pow10_15();
    let n = s.len() as int;
    if integer_part_ok(s) {
        lemma_digits_bound(s);
        lemma_pow10_mono(s.len(), 15);
    } else if n >= 3 && integer_part_ok(s.subrange(0, n - 2)) {
        lemma_digits_bound(s.subrange(0, n - 2));
        lemma_pow10_mono((n - 2) as nat, 15);
    } else if n >= 4 && integer_part_ok(s.subrange(0, n - 3)) {
        lemma_digits_bound(s.subrange(0, n - 3));
        lemma_pow10_mono((n - 3) as nat, 15);
    }
}

} // verus!
