//! Decimal numerals: writing an unsigned number and reading one back.

use vstd::prelude::*;

use crate::text::{chars_of, slice_chars, text_of};

verus! {

pub open spec fn digit_char(d: nat) -> char {
    ((d as u8) + 48) as u8 as char
}

pub open spec fn is_digit_char(c: char) -> bool {
    '0' <= c && c <= '9'
}

pub open spec fn digit_of(c: char) -> nat {
    ((c as u32) - 48) as nat
}

/// The decimal numeral of `n`, without leading zeros.
pub open spec fn decimal(n: nat) -> Seq<char>
    decreases n,
{
    if n < 10 {
        seq![digit_char(n)]
    } else {
        decimal(n / 10).push(digit_char(n % 10))
    }
}

pub open spec fn all_digits(s: Seq<char>) -> bool {
    forall|i: int| 0 <= i < s.len() ==> is_digit_char(#[trigger] s[i])
}

/// The number that a row of decimal digits stands for.
pub open spec fn digits_value(s: Seq<char>) -> nat
    decreases s.len(),
{
    if s.len() == 0 {
        0
    } else {
        digits_value(s.drop_last()) * 10 + digit_of(s.last())
    }
}

/// A numeral is one or more decimal digits, with at most one `+` before them.
pub open spec fn numeral_digits(s: Seq<char>) -> Seq<char> {
    if s.len() > 0 && s[0] == '+' {
        s.subrange(1, s.len() as int)
    } else {
        s
    }
}

/// The number that `s` is a numeral of, where it is one and is at most `max`.
pub open spec fn numeral_value(s: Seq<char>, max: nat) -> Option<nat> {
    let d = numeral_digits(s);
    if d.len() > 0 && all_digits(d) && digits_value(d) <= max {
        Some(digits_value(d))
    } else {
        None
    }
}

pub proof fn lemma_digits_value_prefix(s: Seq<char>, k: int)
    requires
        0 <= k <= s.len(),
    ensures
        digits_value(s.subrange(0, k)) <= digits_value(s),
    decreases s.len() - k,
{
    if k == s.len() {
        assert(s.subrange(0, k) =~= s);
    } else {
        lemma_digits_value_prefix(s, k + 1);
        assert(s.subrange(0, k + 1).drop_last() =~= s.subrange(0, k));
    }
}

/// Reading back a written number gives that number.
pub proof fn decimal_reads_back(n: nat, max: nat)
    requires
        n <= max,
    ensures
        decimal(n).len() > 0,
        all_digits(decimal(n)),
        digits_value(decimal(n)) == n,
        numeral_value(decimal(n), max) == Some(n),
    decreases n,
{
    if n < 10 {
        assert(decimal(n).drop_last() =~= Seq::<char>::empty());
        assert(digits_value(Seq::<char>::empty()) == 0);
        assert(digit_of(digit_char(n)) == n);
    } else {
        decimal_reads_back(n / 10, max);
        assert(decimal(n).drop_last() =~= decimal(n / 10));
        assert(is_digit_char(digit_char(n % 10)));
        assert(digit_of(digit_char(n % 10)) == n % 10);
    }
    assert(is_digit_char(decimal(n)[0]));
}

fn push_digits(out: &mut Vec<char>, n: u128)
    ensures
        final(out)@ == old(out)@ + decimal(n as nat),
    decreases n,
{
    if n < 10 {
        out.push(((n as u8) + 48) as char);
        assert(out@ =~= old(out)@ + decimal(n as nat));
    } else {
        push_digits(out, n / 10);
        out.push((((n % 10) as u8) + 48) as char);
        assert(out@ =~= old(out)@ + decimal(n as nat));
    }
}

pub fn decimal_text(n: u64) -> (r: String)
    ensures
        r@ == decimal(n as nat),
{
    let mut out: Vec<char> = Vec::new();
    push_digits(&mut out, n as u128);
    assert(out@ =~= decimal(n as nat));
    text_of(&out)
}

/// The numeral of a number that may be wider than a word.
pub fn wide_decimal_text(n: u128) -> (r: String)
    ensures
        r@ == decimal(n as nat),
{
    let mut out: Vec<char> = Vec::new();
    push_digits(&mut out, n);
    assert(out@ =~= decimal(n as nat));
    text_of(&out)
}

/// Read a numeral of at most `max`.
pub fn parse_numeral(s: &str, max: u64) -> (r: Option<u64>)
    ensures
        r matches Some(n) ==> numeral_value(s@, max as nat) == Some(n as nat),
        r is None ==> numeral_value(s@, max as nat) is None,
{
    let sv = chars_of(s);
    let d = if sv.len() > 0 && sv[0] == '+' {
        slice_chars(&sv, 1, sv.len())
    } else {
        sv
    };
    if d.len() == 0 {
        return None;
    }
    let mut total: u64 = 0;
    let mut i: usize = 0;
    while i < d.len()
        invariant
            i <= d.len(),
            d@ == numeral_digits(s@),
            d.len() > 0,
            total <= max,
            total == digits_value(d@.subrange(0, i as int)),
            forall|k: int| 0 <= k < i ==> is_digit_char(#[trigger] d@[k]),
        decreases d.len() - i,
    {
        let c = d[i];
        if !('0' <= c && c <= '9') {
            assert(!is_digit_char(d@[i as int]));
            return None;
        }
        let v: u64 = ((c as u32) - 48) as u64;
        proof {
            lemma_digits_value_prefix(d@, i + 1);
            assert(d@.subrange(0, i + 1).drop_last() =~= d@.subrange(0, i as int));
        }
        if v > max || total > max / 10 || total * 10 > max - v {
            return None;
        }
        total = total * 10 + v;
        i = i + 1;
    }
    assert(d@.subrange(0, d@.len() as int) =~= d@);
    Some(total)
}

} // verus!
