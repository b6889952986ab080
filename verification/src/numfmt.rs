//! Decimal and hexadecimal rendering of integers.
use vstd::prelude::*;
use crate::text::string_of;

verus! {

/// The lower-case digit for a value below sixteen.
pub open spec fn digit_char(d: nat) -> char {
    if d == 0 { '0' }
    else if d == 1 { '1' }
    else if d == 2 { '2' }
    else if d == 3 { '3' }
    else if d == 4 { '4' }
    else if d == 5 { '5' }
    else if d == 6 { '6' }
    else if d == 7 { '7' }
    else if d == 8 { '8' }
    else if d == 9 { '9' }
    else if d == 10 { 'a' }
    else if d == 11 { 'b' }
    else if d == 12 { 'c' }
    else if d == 13 { 'd' }
    else if d == 14 { 'e' }
    else { 'f' }
}

/// Value of a digit character, the inverse of `digit_char`.
pub open spec fn digit_value(c: char) -> nat {
    if c == '1' { 1 }
    else if c == '2' { 2 }
    else if c == '3' { 3 }
    else if c == '4' { 4 }
    else if c == '5' { 5 }
    else if c == '6' { 6 }
    else if c == '7' { 7 }
    else if c == '8' { 8 }
    else if c == '9' { 9 }
    else if c == 'a' { 10 }
    else if c == 'b' { 11 }
    else if c == 'c' { 12 }
    else if c == 'd' { 13 }
    else if c == 'e' { 14 }
    else if c == 'f' { 15 }
    else { 0 }
}

/// Shortest decimal representation of `n` (what `{}` prints for an unsigned
/// integer).
pub open spec fn decimal(n: nat) -> Seq<char>
    decreases n,
{
    if n < 10 {
        seq![digit_char(n)]
    } else {
        decimal(n / 10).push(digit_char(n % 10))
    }
}

/// Shortest lower-case hexadecimal representation of `n` (`{:x}`).
pub open spec fn hex(n: nat) -> Seq<char>
    decreases n,
{
    if n < 16 {
        seq![digit_char(n)]
    } else {
        hex(n / 16).push(digit_char(n % 16))
    }
}

/// `{:08x}`: lower-case hexadecimal, left-padded with zeros to eight digits.
pub open spec fn hex_padded8(n: nat) -> Seq<char> {
    let h = hex(n);
    if h.len() < 8 {
        Seq::new((8 - h.len()) as nat, |i: int| '0') + h
    } else {
        h
    }
}

/// Numeric value of a digit string read in base `b`.
pub open spec fn digits_value(s: Seq<char>, b: nat) -> nat
    decreases s.len(),
{
    if s.len() == 0 {
        0
    } else {
        digits_value(s.drop_last(), b) * b + digit_value(s.last())
    }
}

fn digit(d: u64) -> (c: char)
    requires
        d < 16,
    ensures
        c == digit_char(d as nat),
{
    if d == 0 { '0' }
    else if d == 1 { '1' }
    else if d == 2 { '2' }
    else if d == 3 { '3' }
    else if d == 4 { '4' }
    else if d == 5 { '5' }
    else if d == 6 { '6' }
    else if d == 7 { '7' }
    else if d == 8 { '8' }
    else if d == 9 { '9' }
    else if d == 10 { 'a' }
    else if d == 11 { 'b' }
    else if d == 12 { 'c' }
    else if d == 13 { 'd' }
    else if d == 14 { 'e' }
    else { 'f' }
}

/// Renders `n` in decimal.
pub fn decimal_string(n: u64) -> (s: String)
    ensures
        s@ == decimal(n as nat),
{
    let mut m: u64 = n;
    let mut acc: Vec<char> = Vec::new();
    while m >= 10
        invariant
            decimal(n as nat) == decimal(m as nat) + acc@,
        decreases m,
    {
        let d = digit(m % 10);
        proof {
            assert(decimal(m as nat) == decimal((m / 10) as nat).push(d));
            assert(decimal((m / 10) as nat).push(d) + acc@ =~= decimal((m / 10) as nat) + seq![d]
                + acc@);
        }
        acc.insert(0, d);
        m = m / 10;
        assert(decimal(n as nat) =~= decimal(m as nat) + acc@);
    }
    let d = digit(m);
    acc.insert(0, d);
    assert(acc@ =~= decimal(n as nat));
    string_of(&acc)
}

/// Renders `n` as `{:08x}` does.
pub fn hex_string_padded8(n: u64) -> (s: String)
    ensures
        s@ == hex_padded8(n as nat),
{
    let mut m: u64 = n;
    let mut acc: Vec<char> = Vec::new();
    while m >= 16
        invariant
            hex(n as nat) == hex(m as nat) + acc@,
        decreases m,
    {
        let d = digit(m % 16);
        proof {
            assert(hex(m as nat) == hex((m / 16) as nat).push(d));
            assert(hex((m / 16) as nat).push(d) + acc@ =~= hex((m / 16) as nat) + seq![d] + acc@);
        }
        acc.insert(0, d);
        m = m / 16;
        assert(hex(n as nat) =~= hex(m as nat) + acc@);
    }
    let d = digit(m);
    acc.insert(0, d);
    assert(acc@ =~= hex(n as nat));
    let ghost h = acc@;
    assert(acc@ =~= Seq::new(0, |i: int| '0') + h);
    while acc.len() < 8
        invariant
            h == hex(n as nat),
            acc.len() >= h.len(),
            acc.len() == h.len() || acc.len() <= 8,
            acc@ == Seq::new((acc.len() - h.len()) as nat, |i: int| '0') + h,
        decreases 8 - acc.len(),
    {
        acc.insert(0, '0');
        assert(acc@ =~= Seq::new((acc.len() - h.len()) as nat, |i: int| '0') + h);
    }
    assert(acc@ =~= hex_padded8(n as nat));
    string_of(&acc)
}

proof fn lemma_digit_round_trip(d: nat)
    requires
        d < 16,
    ensures
        digit_value(digit_char(d)) == d,
{
}

/// Reading the decimal rendering of `n` back in base ten gives `n`.
pub proof fn lemma_decimal_round_trip(n: nat)
    ensures
        digits_value(decimal(n), 10) == n,
    decreases n,
{
    let s = decimal(n);
    if n < 10 {
        lemma_digit_round_trip(n);
        assert(s.drop_last() =~= Seq::<char>::empty());
        assert(digits_value(s, 10) == digits_value(s.drop_last(), 10) * 10 + digit_value(s.last()));
    } else {
        lemma_decimal_round_trip(n / 10);
        lemma_digit_round_trip(n % 10);
        assert(s.drop_last() =~= decimal(n / 10));
        assert(s.last() == digit_char(n % 10));
        assert(digits_value(s, 10) == digits_value(s.drop_last(), 10) * 10 + digit_value(s.last()));
        assert((n / 10) * 10 + n % 10 == n);
    }
}

/// Reading the hexadecimal rendering of `n` back in base sixteen gives `n`,
/// zero padding does not change the value, and the padded form has at least
/// eight digits.
pub proof fn lemma_hex_round_trip(n: nat)
    ensures
        digits_value(hex(n), 16) == n,
        digits_value(hex_padded8(n), 16) == n,
        hex_padded8(n).len() >= 8,
    decreases n,
{
    let s = hex(n);
    if n < 16 {
        lemma_digit_round_trip(n);
        assert(s.drop_last() =~= Seq::<char>::empty());
        assert(digits_value(s, 16) == digits_value(s.drop_last(), 16) * 16 + digit_value(s.last()));
    } else {
        lemma_hex_round_trip(n / 16);
        lemma_digit_round_trip(n % 16);
        assert(s.drop_last() =~= hex(n / 16));
        assert(s.last() == digit_char(n % 16));
        assert(digits_value(s, 16) == digits_value(s.drop_last(), 16) * 16 + digit_value(s.last()));
        assert((n / 16) * 16 + n % 16 == n);
    }
    if s.len() < 8 {
        lemma_zero_prefix_value(s, (8 - s.len()) as nat);
    }
}

proof fn lemma_zero_prefix_value(h: Seq<char>, k: nat)
    ensures
        digits_value(Seq::new(k, |i: int| '0') + h, 16) == digits_value(h, 16),
    decreases h.len(), k,
{
    let z = Seq::new(k, |i: int| '0');
    if h.len() == 0 {
        assert(z + h =~= z);
        lemma_zeros_value(k);
    } else {
        lemma_zero_prefix_value(h.drop_last(), k);
        assert((z + h).drop_last() =~= z + h.drop_last());
        assert((z + h).last() == h.last());
    }
}

proof fn lemma_zeros_value(k: nat)
    ensures
        digits_value(Seq::new(k, |i: int| '0'), 16) == 0,
    decreases k,
{
    if k > 0 {
        lemma_zeros_value((k - 1) as nat);
        assert(Seq::new(k, |i: int| '0').drop_last() =~= Seq::new((k - 1) as nat, |i: int| '0'));
    }
}

} // verus!
