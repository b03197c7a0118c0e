//! How the `str` order of fixed-width decimal texts follows the order of
//! the numbers they write.
use vstd::prelude::*;
use crate::text::{decimal, decimal_padded, digit_char, lex_le};

verus! {

/// A common prefix does not change the order of two texts.
pub proof fn lemma_lex_common_prefix(p: Seq<char>, x: Seq<char>, y: Seq<char>)
    ensures
        lex_le(p + x, p + y) == lex_le(x, y),
    decreases p.len(),
{
    if p.len() == 0 {
        assert(p + x =~= x);
        assert(p + y =~= y);
    } else {
        assert((p + x).drop_first() =~= p.drop_first() + x);
        assert((p + y).drop_first() =~= p.drop_first() + y);
        lemma_lex_common_prefix(p.drop_first(), x, y);
    }
}

/// Texts that start with parts of equal length compare by those parts, and
/// by what follows when the parts are equal.
pub proof fn lemma_lex_concat(x: Seq<char>, y: Seq<char>, s: Seq<char>, t: Seq<char>)
    requires
        x.len() == y.len(),
    ensures
        lex_le(x + s, y + t) == if x == y {
            lex_le(s, t)
        } else {
            lex_le(x, y)
        },
    decreases x.len(),
{
    if x.len() == 0 {
        assert(x =~= y);
        assert(x + s =~= s);
        assert(y + t =~= t);
    } else {
        assert((x + s)[0] == x[0]);
        assert((y + t)[0] == y[0]);
        if x[0] == y[0] {
            assert((x + s).drop_first() =~= x.drop_first() + s);
            assert((y + t).drop_first() =~= y.drop_first() + t);
            lemma_lex_concat(x.drop_first(), y.drop_first(), s, t);
            if x.drop_first() == y.drop_first() {
                assert(x =~= seq![x[0]] + x.drop_first());
                assert(y =~= seq![y[0]] + y.drop_first());
                assert(x =~= y);
            } else {
                assert(x != y);
            }
        } else {
            assert(x != y);
        }
    }
}

pub open spec fn pow10(w: nat) -> nat
    decreases w,
{
    if w == 0 {
        1
    } else {
        10 * pow10((w - 1) as nat)
    }
}

/// The last `w` decimal digits of `n`, most significant first.
#[verifier::opaque]
pub open spec fn fixed_digits(n: nat, w: nat) -> Seq<char>
    decreases w,
{
    if w == 0 {
        seq![]
    } else {
        fixed_digits(n / 10, (w - 1) as nat).push(digit_char((n % 10) as int))
    }
}

proof fn lemma_decimal_len(n: nat, w: nat)
    requires
        w >= 1,
        n < pow10(w),
    ensures
        decimal(n).len() <= w,
    decreases w,
{
    reveal_with_fuel(pow10, 2);
    if n >= 10 {
        assert(w >= 2);
        assert(n / 10 < pow10((w - 1) as nat)) by (nonlinear_arith)
            requires
                n < 10 * pow10((w - 1) as nat),
        ;
        lemma_decimal_len(n / 10, (w - 1) as nat);
    }
}

/// Below `10^w`, the zero-padded decimal text of width `w` is the last `w` digits.
pub proof fn lemma_padded_is_fixed(n: nat, w: nat)
    requires
        w >= 1,
        n < pow10(w),
    ensures
        decimal_padded(n, w) == fixed_digits(n, w),
    decreases w,
{
    reveal(fixed_digits);
    lemma_decimal_len(n, w);
    if w == 1 {
        assert(fixed_digits(n / 10, 0) =~= Seq::<char>::empty());
        assert(decimal_padded(n, w) =~= fixed_digits(n, w));
    } else {
        assert(n / 10 < pow10((w - 1) as nat)) by (nonlinear_arith)
            requires
                n < 10 * pow10((w - 1) as nat),
        ;
        lemma_padded_is_fixed(n / 10, (w - 1) as nat);
        lemma_decimal_len(n / 10, (w - 1) as nat);
        let d = digit_char((n % 10) as int);
        if n < 10 {
            assert(n / 10 == 0 && n % 10 == n);
            let z = decimal_padded(0, (w - 1) as nat);
            assert(decimal(n) == seq![d]);
            assert(decimal_padded(n, w) =~= z.push(d));
        } else {
            assert(decimal(n) == decimal(n / 10).push(d));
            assert(decimal_padded(n, w) =~= decimal_padded(n / 10, (w - 1) as nat).push(d));
        }
    }
}

/// The last `w` digits are `w` characters.
pub proof fn lemma_fixed_len(n: nat, w: nat)
    ensures
        fixed_digits(n, w).len() == w,
    decreases w,
{
    reveal(fixed_digits);
    if w > 0 {
        lemma_fixed_len(n / 10, (w - 1) as nat);
    }
}

/// Below `10^w`, the last `w` digits of two numbers compare as the numbers do.
pub proof fn lemma_fixed_order(a: nat, b: nat, w: nat)
    requires
        a < pow10(w),
        b < pow10(w),
    ensures
        fixed_digits(a, w).len() == w,
        lex_le(fixed_digits(a, w), fixed_digits(b, w)) == (a <= b),
        (fixed_digits(a, w) == fixed_digits(b, w)) == (a == b),
    decreases w,
{
    reveal(fixed_digits);
    lemma_fixed_len(a, w);
    lemma_fixed_len(b, w);
    if w > 0 {
        let w1 = (w - 1) as nat;
        assert(a / 10 < pow10(w1) && b / 10 < pow10(w1)) by (nonlinear_arith)
            requires
                a < 10 * pow10(w1),
                b < 10 * pow10(w1),
        ;
        lemma_fixed_order(a / 10, b / 10, w1);
        let x = fixed_digits(a / 10, w1);
        let y = fixed_digits(b / 10, w1);
        let da = digit_char((a % 10) as int);
        let db = digit_char((b % 10) as int);
        assert(fixed_digits(a, w) =~= x + seq![da]);
        assert(fixed_digits(b, w) =~= y + seq![db]);
        lemma_lex_concat(x, y, seq![da], seq![db]);
        assert(da as int == a % 10 + 48);
        assert(db as int == b % 10 + 48);
        assert(seq![da].drop_first() =~= Seq::<char>::empty());
        assert(seq![db].drop_first() =~= Seq::<char>::empty());
        assert(a == 10 * (a / 10) + a % 10 && b == 10 * (b / 10) + b % 10);
        if x == y {
            assert(a / 10 == b / 10);
            assert(seq![da][0] == da && seq![db][0] == db);
            assert(lex_le(seq![da].drop_first(), seq![db].drop_first()));
            assert(lex_le(seq![da], seq![db]) == (da <= db));
            assert((da <= db) == (a % 10 <= b % 10));
        } else {
            assert(a / 10 != b / 10);
            if a / 10 < b / 10 {
                assert(a < b) by (nonlinear_arith)
                    requires
                        a / 10 < b / 10,
                        a == 10 * (a / 10) + a % 10,
                        b == 10 * (b / 10) + b % 10,
                        a % 10 < 10,
                        b % 10 >= 0,
                ;
            } else {
                assert(b < a) by (nonlinear_arith)
                    requires
                        b / 10 < a / 10,
                        a == 10 * (a / 10) + a % 10,
                        b == 10 * (b / 10) + b % 10,
                        b % 10 < 10,
                        a % 10 >= 0,
                ;
            }
        }
        if fixed_digits(a, w) == fixed_digits(b, w) {
            assert((x + seq![da])[w1 as int] == da);
            assert((y + seq![db])[w1 as int] == db);
            assert((x + seq![da]).take(w1 as int) =~= x);
            assert((y + seq![db]).take(w1 as int) =~= y);
        }
    } else {
        assert(a == 0 && b == 0);
    }
}

/// The powers of ten the time stamps use.
pub proof fn lemma_pow10_small()
    ensures
        pow10(2) == 100,
        pow10(3) == 1000,
        pow10(4) == 10000,
{
    reveal_with_fuel(pow10, 5);
}

} // verus!
