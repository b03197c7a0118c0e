//! Decimal rendering and parsing of integers, as `to_string`, `format!("{:0N}")`
//! and `str::parse` do them.
use vstd::prelude::*;
use crate::text::{decimal, decimal_padded, digit_char, is_ascii_digit, push_char};

verus! {

/// Value of a run of decimal digits.
pub open spec fn digits_value(s: Seq<char>) -> int
    decreases s.len(),
{
    if s.len() == 0 {
        0
    } else {
        digits_value(s.drop_last()) * 10 + (s.last() as int - 48)
    }
}

pub open spec fn is_digit_run(s: Seq<char>) -> bool {
    s.len() > 0 && forall|k: int| 0 <= k < s.len() ==> is_ascii_digit(#[trigger] s[k])
}

/// What `str::parse` gives for an unsigned type whose largest value is `max`:
/// an optional `+`, then at least one digit and nothing else.
pub open spec fn parse_unsigned_spec(s: Seq<char>, max: int) -> Option<int> {
    let body = if s.len() > 0 && s[0] == '+' {
        s.drop_first()
    } else {
        s
    };
    if is_digit_run(body) && digits_value(body) <= max {
        Some(digits_value(body))
    } else {
        None
    }
}

/// What `str::parse` gives for a signed type with range `min..=max`: an
/// optional sign, then at least one digit and nothing else.
pub open spec fn parse_signed_spec(s: Seq<char>, min: int, max: int) -> Option<int> {
    if s.len() > 0 && s[0] == '-' {
        let body = s.drop_first();
        if is_digit_run(body) && -digits_value(body) >= min {
            Some(-digits_value(body))
        } else {
            None
        }
    } else {
        parse_unsigned_spec(s, max)
    }
}

proof fn lemma_digits_monotone(s: Seq<char>, k: int)
    requires
        0 <= k <= s.len(),
        forall|i: int| 0 <= i < s.len() ==> is_ascii_digit(#[trigger] s[i]),
    ensures
        digits_value(s.take(k)) <= digits_value(s),
        digits_value(s.take(k)) >= 0,
    decreases s.len() - k,
{
    if k < s.len() {
        lemma_digits_monotone(s, k + 1);
        assert(s.take(k + 1).drop_last() == s.take(k));
        assert(s.take(k + 1).last() == s[k]);
        lemma_digits_nonneg(s.take(k));
    } else {
        assert(s.take(k) == s);
        lemma_digits_nonneg(s);
    }
}

proof fn lemma_digits_nonneg(s: Seq<char>)
    requires
        forall|i: int| 0 <= i < s.len() ==> is_ascii_digit(#[trigger] s[i]),
    ensures
        digits_value(s) >= 0,
    decreases s.len(),
{
    if s.len() > 0 {
        lemma_digits_nonneg(s.drop_last());
        assert(is_ascii_digit(s[s.len() - 1]));
    }
}

/// Parses `s[start..]` as a non-empty run of digits whose value is at most `limit`.
fn parse_digits(s: &Vec<char>, start: usize, limit: u64) -> (r: Option<u64>)
    requires
        start <= s.len(),
    ensures
        match r {
            Some(v) => is_digit_run(s@.skip(start as int)) && v == digits_value(s@.skip(start as int))
                && v <= limit,
            None => !(is_digit_run(s@.skip(start as int)) && digits_value(s@.skip(start as int))
                <= limit),
        },
{
    let ghost b = s@.skip(start as int);
    if start == s.len() {
        return None;
    }
    let mut acc: u128 = 0;
    let mut i = start;
    while i < s.len()
        invariant
            start <= i <= s.len(),
            b == s@.skip(start as int),
            forall|k: int| 0 <= k < i - start ==> is_ascii_digit(#[trigger] b[k]),
            acc == digits_value(b.take(i - start)),
            acc <= limit,
        decreases s.len() - i,
    {
        let c = s[i];
        assert(b[i - start] == c);
        if !('0' <= c && c <= '9') {
            assert(!is_digit_run(b));
            return None;
        }
        let d: u128 = ((c as u32) - 48) as u128;
        assert(b.take(i - start + 1).drop_last() == b.take(i - start));
        assert(b.take(i - start + 1).last() == c);
        let next = acc * 10 + d;
        if next > limit as u128 {
            proof {
                if is_digit_run(b) {
                    lemma_digits_monotone(b, i - start + 1);
                }
            }
            return None;
        }
        acc = next;
        i = i + 1;
    }
    assert(b.take(i - start) == b);
    Some(acc as u64)
}

/// `str::parse::<u64>` on characters.
pub fn parse_u64(s: &Vec<char>) -> (r: Option<u64>)
    ensures
        match r {
            Some(v) => parse_unsigned_spec(s@, u64::MAX as int) == Some(v as int),
            None => parse_unsigned_spec(s@, u64::MAX as int) is None,
        },
{
    let start: usize = if s.len() > 0 && s[0] == '+' {
        1
    } else {
        0
    };
    assert(s@.skip(0) == s@);
    assert(s@.len() > 0 ==> s@.skip(1) == s@.drop_first());
    parse_digits(s, start, u64::MAX)
}

/// `str::parse::<u8>` on characters.
pub fn parse_u8(s: &Vec<char>) -> (r: Option<u8>)
    ensures
        match r {
            Some(v) => parse_unsigned_spec(s@, u8::MAX as int) == Some(v as int),
            None => parse_unsigned_spec(s@, u8::MAX as int) is None,
        },
{
    let start: usize = if s.len() > 0 && s[0] == '+' {
        1
    } else {
        0
    };
    assert(s@.skip(0) == s@);
    assert(s@.len() > 0 ==> s@.skip(1) == s@.drop_first());
    match parse_digits(s, start, 255) {
        Some(v) => Some(v as u8),
        None => None,
    }
}

/// `str::parse::<i64>` on characters.
pub fn parse_i64(s: &Vec<char>) -> (r: Option<i64>)
    ensures
        match r {
            Some(v) => parse_signed_spec(s@, i64::MIN as int, i64::MAX as int) == Some(v as int),
            None => parse_signed_spec(s@, i64::MIN as int, i64::MAX as int) is None,
        },
{
    if s.len() > 0 && s[0] == '-' {
        assert(s@.skip(1) == s@.drop_first());
        match parse_digits(s, 1, 9223372036854775808u64) {
            Some(v) => {
                if v == 9223372036854775808u64 {
                    Some(i64::MIN)
                } else {
                    Some(-(v as i64))
                }
            },
            None => None,
        }
    } else {
        let start: usize = if s.len() > 0 && s[0] == '+' {
            1
        } else {
            0
        };
        assert(s@.skip(0) == s@);
        assert(s@.len() > 0 ==> s@.skip(1) == s@.drop_first());
        match parse_digits(s, start, i64::MAX as u64) {
            Some(v) => Some(v as i64),
            None => None,
        }
    }
}

fn digit_of(d: u64) -> (c: char)
    requires
        d < 10,
    ensures
        c == digit_char(d as int),
{
    let b: u8 = (d as u8) + 48;
    b as char
}

/// Appends the decimal digits of `n`.
pub fn push_decimal(out: &mut String, n: u64)
    ensures
        final(out)@ == old(out)@ + decimal(n as nat),
    decreases n,
{
    if n >= 10 {
        push_decimal(out, n / 10);
    }
    push_char(out, digit_of(n % 10));
    proof {
        if n < 10 {
            assert(n % 10 == n);
        }
    }
}

/// `n.to_string()`.
pub fn decimal_string(n: u64) -> (r: String)
    ensures
        r@ == decimal(n as nat),
{
    let mut r = String::new();
    push_decimal(&mut r, n);
    r
}

/// Number of decimal digits of `n`.
pub fn decimal_len(n: u64) -> (r: u64)
    ensures
        r == decimal(n as nat).len(),
        1 <= r <= n as nat + 1,
    decreases n,
{
    if n < 10 {
        1
    } else {
        let k = decimal_len(n / 10);
        k + 1
    }
}

/// Appends `n` left-padded with zeros to `width` characters, as `{:0width$}`.
pub fn push_padded(out: &mut String, n: u64, width: usize)
    ensures
        final(out)@ == old(out)@ + decimal_padded(n as nat, width as nat),
{
    let ghost start = out@;
    let len = decimal_len(n);
    let w = width as u64;
    let mut k: u64 = len;
    while k < w
        invariant
            len == decimal(n as nat).len(),
            len <= k,
            k <= w || k == len,
            w == width,
            out@ == start + Seq::new((k - len) as nat, |i: int| '0'),
        decreases w - k,
    {
        push_char(out, '0');
        assert(Seq::new((k - len) as nat, |i: int| '0').push('0') == Seq::new(
            (k + 1 - len) as nat,
            |i: int| '0',
        ));
        k = k + 1;
    }
    push_decimal(out, n);
    assert(out@ == start + (Seq::new((k - len) as nat, |i: int| '0') + decimal(n as nat)));
    if w <= len {
        assert(Seq::new(0, |i: int| '0') + decimal(n as nat) == decimal(n as nat));
    }
}

proof fn lemma_decimal_digits(n: nat)
    ensures
        is_digit_run(decimal(n)),
        digits_value(decimal(n)) == n,
        decimal(n)[0] != '+',
    decreases n,
{
    let c = digit_char((n % 10) as int);
    assert(c as int == (n % 10) + 48);
    if n < 10 {
        assert(n % 10 == n);
        assert(decimal(n) == seq![c]);
        assert(decimal(n).drop_last() =~= Seq::<char>::empty());
        assert(decimal(n).last() == c);
        assert(digits_value(decimal(n)) == digits_value(Seq::<char>::empty()) * 10 + (c as int - 48));
    } else {
        lemma_decimal_digits(n / 10);
        let d = decimal(n / 10);
        let e = d.push(digit_char((n % 10) as int));
        assert(e.drop_last() == d);
        assert(e.last() == c);
        assert(digits_value(e) == digits_value(d) * 10 + (c as int - 48));
        assert((n / 10) * 10 + n % 10 == n) by (nonlinear_arith);
        assert(forall|k: int| 0 <= k < d.len() ==> e[k] == d[k]);
        assert(e[0] == d[0]);
        assert(decimal(n) == e);
    }
}

/// Parsing the decimal text of a number gives the number back.
pub proof fn lemma_parse_decimal_roundtrip(n: nat, max: int)
    requires
        n <= max,
    ensures
        parse_unsigned_spec(decimal(n), max) == Some(n as int),
{
    lemma_decimal_digits(n);
}

} // verus!
