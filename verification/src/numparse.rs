//! Parsing of decimal integers as `str::parse` does for `i64` and `usize`:
//! an optional sign (`+`, or `-` for signed types) followed by one or more
//! ASCII digits, the value within the type's range.
use vstd::prelude::*;
use crate::numfmt::{decimal, digit_char};
use crate::text::chars_of;

verus! {

pub open spec fn is_digit(c: char) -> bool {
    '0' <= c && c <= '9'
}

/// One or more ASCII digits.
pub open spec fn all_digits(s: Seq<char>) -> bool {
    s.len() > 0 && forall|i: int| 0 <= i < s.len() ==> is_digit(#[trigger] s[i])
}

/// Value of a run of decimal digits.
pub open spec fn digits_val(s: Seq<char>) -> nat
    decreases s.len(),
{
    if s.len() == 0 {
        0
    } else {
        digits_val(s.drop_last()) * 10 + ((s.last() as u32) - 48) as nat
    }
}

/// The integer a text denotes, before any range check.
pub open spec fn parse_int(s: Seq<char>, signed: bool) -> Option<int> {
    if s.len() == 0 {
        None
    } else if s[0] == '+' {
        if all_digits(s.drop_first()) {
            Some(digits_val(s.drop_first()) as int)
        } else {
            None
        }
    } else if s[0] == '-' && signed {
        if all_digits(s.drop_first()) {
            Some(-(digits_val(s.drop_first()) as int))
        } else {
            None
        }
    } else if all_digits(s) {
        Some(digits_val(s) as int)
    } else {
        None
    }
}

/// What `s.parse::<i64>().ok()` gives.
pub open spec fn parse_i64_spec(s: Seq<char>) -> Option<i64> {
    match parse_int(s, true) {
        Some(v) => if i64::MIN <= v <= i64::MAX {
            Some(v as i64)
        } else {
            None
        },
        None => None,
    }
}

/// What `s.parse::<usize>().ok()` gives.
pub open spec fn parse_usize_spec(s: Seq<char>) -> Option<usize> {
    match parse_int(s, false) {
        Some(v) => if 0 <= v <= usize::MAX {
            Some(v as usize)
        } else {
            None
        },
        None => None,
    }
}

proof fn lemma_digits_val_prefix(s: Seq<char>, i: int)
    requires
        0 <= i <= s.len(),
        forall|j: int| 0 <= j < s.len() ==> is_digit(#[trigger] s[j]),
    ensures
        digits_val(s) >= digits_val(s.take(i)),
    decreases s.len() - i,
{
    if i < s.len() {
        lemma_digits_val_prefix(s, i + 1);
        assert(s.take(i + 1).drop_last() =~= s.take(i));
        assert(s.take(i + 1).last() == s[i]);
    } else {
        assert(s.take(i) =~= s);
    }
}

/// Reads the digits of `v[start..]`, giving their value when it is at most
/// `bound` and `None` when it exceeds `bound` or a non-digit occurs.
fn read_digits(v: &Vec<char>, start: usize, bound: u64) -> (r: Option<u64>)
    requires
        start <= v.len(),
    ensures
        all_digits(v@.skip(start as int)) && digits_val(v@.skip(start as int)) <= bound ==> r
            == Some(digits_val(v@.skip(start as int)) as u64),
        !(all_digits(v@.skip(start as int)) && digits_val(v@.skip(start as int)) <= bound) ==> r
            is None,
{
    let ghost d = v@.skip(start as int);
    if start == v.len() {
        return None;
    }
    let mut i: usize = start;
    let mut acc: u64 = 0;
    while i < v.len()
        invariant
            start <= i <= v.len(),
            d == v@.skip(start as int),
            acc as nat == digits_val(d.take(i - start)),
            acc <= bound,
            forall|j: int| 0 <= j < i - start ==> is_digit(#[trigger] d[j]),
        decreases v.len() - i,
    {
        let c = v[i];
        if !('0' <= c && c <= '9') {
            assert(d[i - start] == c);
            return None;
        }
        let digit = (c as u32 - 48) as u64;
        proof {
            assert(d.take(i - start + 1).drop_last() =~= d.take(i - start));
            assert(d.take(i - start + 1).last() == c);
        }
        if digit > bound {
            proof {
                if all_digits(d) {
                    lemma_digits_val_prefix(d, i - start + 1);
                }
            }
            return None;
        }
        if acc > (bound - digit) / 10 {
            proof {
                assert(digits_val(d.take(i - start + 1)) > bound) by (nonlinear_arith)
                    requires
                        digits_val(d.take(i - start + 1)) == acc * 10 + digit,
                        acc > (bound - digit) / 10,
                        digit <= bound,
                        digit <= 9,
                ;
                assert forall|j: int| 0 <= j < d.len() implies is_digit(#[trigger] d[j]) || !all_digits(d) by {}
                if all_digits(d) {
                    lemma_digits_val_prefix(d, i - start + 1);
                }
            }
            return None;
        }
        acc = acc * 10 + digit;
        i += 1;
    }
    proof {
        assert(d.take(i - start) =~= d);
    }
    Some(acc)
}

/// Parses a signed decimal integer as `str::parse::<i64>` does.
pub fn parse_i64(s: &str) -> (r: Option<i64>)
    ensures
        r == parse_i64_spec(s@),
{
    let v = chars_of(s);
    if v.len() == 0 {
        return None;
    }
    if v[0] == '+' {
        proof {
            assert(v@.skip(1) =~= v@.drop_first());
        }
        match read_digits(&v, 1, 0x7fff_ffff_ffff_ffff) {
            Some(x) => Some(x as i64),
            None => None,
        }
    } else if v[0] == '-' {
        proof {
            assert(v@.skip(1) =~= v@.drop_first());
        }
        match read_digits(&v, 1, 0x8000_0000_0000_0000) {
            Some(x) => {
                if x == 0x8000_0000_0000_0000 {
                    Some(i64::MIN)
                } else {
                    Some(-(x as i64))
                }
            },
            None => None,
        }
    } else {
        proof {
            assert(v@.skip(0) =~= v@);
        }
        match read_digits(&v, 0, 0x7fff_ffff_ffff_ffff) {
            Some(x) => Some(x as i64),
            None => None,
        }
    }
}

/// Parses an unsigned decimal integer as `str::parse::<usize>` does.
pub fn parse_usize(s: &str) -> (r: Option<usize>)
    ensures
        r == parse_usize_spec(s@),
{
    let v = chars_of(s);
    if v.len() == 0 {
        return None;
    }
    let start: usize = if v[0] == '+' { 1 } else { 0 };
    proof {
        assert(v@.skip(1) =~= v@.drop_first());
        assert(v@.skip(0) =~= v@);
        if v@[0] == '-' {
            assert(!is_digit(v@[0]));
        }
    }
    match read_digits(&v, start, usize::MAX as u64) {
        Some(x) => Some(x as usize),
        None => None,
    }
}

proof fn lemma_decimal_digit(d: nat)
    requires
        d < 10,
    ensures
        is_digit(digit_char(d)),
        ((digit_char(d) as u32) - 48) as nat == d,
{
}

/// The decimal rendering of `n` is a run of digits worth `n`.
proof fn lemma_decimal_is_digits(n: nat)
    ensures
        all_digits(decimal(n)),
        digits_val(decimal(n)) == n,
    decreases n,
{
    let s = decimal(n);
    if n < 10 {
        lemma_decimal_digit(n);
        assert(s.drop_last() =~= Seq::<char>::empty());
        assert(digits_val(s) == digits_val(s.drop_last()) * 10 + ((s.last() as u32) - 48) as nat);
    } else {
        lemma_decimal_is_digits(n / 10);
        lemma_decimal_digit(n % 10);
        assert(s.drop_last() =~= decimal(n / 10));
        assert(s.last() == digit_char(n % 10));
        assert(digits_val(s) == digits_val(s.drop_last()) * 10 + ((s.last() as u32) - 48) as nat);
        assert((n / 10) * 10 + n % 10 == n);
        assert forall|i: int| 0 <= i < s.len() implies is_digit(#[trigger] s[i]) by {
            if i < s.len() - 1 {
                assert(s[i] == decimal(n / 10)[i]);
            }
        }
    }
}

/// Parsing what `{}` prints gives the number back: a printed id read
/// back as `usize` or (when it fits) as `i64` is the same id.
pub proof fn lemma_parse_decimal_round_trip(n: nat)
    ensures
        n <= usize::MAX ==> parse_usize_spec(decimal(n)) == Some(n as usize),
        n <= i64::MAX ==> parse_i64_spec(decimal(n)) == Some(n as i64),
{
    lemma_decimal_is_digits(n);
    let s = decimal(n);
    assert(is_digit(s[0]));
}

} // verus!
