//! Decimal numerals of any length, and the doubles nearest to them.
use crate::double::{
    grade,
    half_even,
    lemma_grade_above,
    lemma_nearest,
    nearest,
    normal,
    overflows,
    Double,
};
use vstd::arithmetic::div_mod::lemma_fundamental_div_mod_converse;
use vstd::arithmetic::power2::{lemma2_to64_rest, lemma_pow2_pos, lemma_pow2_unfold, pow2};
use vstd::prelude::*;

verus! {

/// The number that decimal digits write, the last digit first.
pub open spec fn number(d: Seq<u8>) -> nat
    decreases d.len(),
{
    if d.len() == 0 {
        0
    } else {
        d[0] as nat + 10 * number(d.drop_first())
    }
}

/// Ten to the power of `n`.
pub open spec fn pow10(n: nat) -> nat
    decreases n,
{
    if n == 0 {
        1
    } else {
        10 * pow10((n - 1) as nat)
    }
}

/// Every element is a decimal digit.
pub open spec fn are_digits(d: Seq<u8>) -> bool {
    forall|i: int| 0 <= i < d.len() ==> d[i] < 10
}

proof fn lemma_pow10_pos(n: nat)
    ensures
        pow10(n) > 0,
    decreases n,
{
    if n > 0 {
        lemma_pow10_pos((n - 1) as nat);
    }
}

/// Splitting off the digits from position `k` on.
proof fn lemma_number_split(d: Seq<u8>, k: int)
    requires
        0 <= k <= d.len(),
    ensures
        number(d) == number(d.take(k)) + pow10(k as nat) * number(d.skip(k)),
    decreases d.len(),
{
    if k == 0 {
        assert(d.skip(0) == d);
        assert(pow10(0) * number(d) == number(d)) by (nonlinear_arith)
            requires
                pow10(0) == 1,
        ;
    } else {
        let rest = d.drop_first();
        lemma_number_split(rest, k - 1);
        assert(d.take(k).drop_first() == rest.take(k - 1));
        assert(d.skip(k) == rest.skip(k - 1));
        let p = pow10((k - 1) as nat);
        let n = number(d.skip(k));
        assert(10 * (p * n) == (10 * p) * n) by (nonlinear_arith);
    }
}

proof fn lemma_number_push(d: Seq<u8>, x: u8)
    ensures
        number(d.push(x)) == number(d) + pow10(d.len()) * x,
{
    let e = d.push(x);
    lemma_number_split(e, d.len() as int);
    assert(e.take(d.len() as int) == d);
    assert(e.skip(d.len() as int) == seq![x]);
    reveal_with_fuel(number, 2);
}

proof fn lemma_number_bound(d: Seq<u8>)
    requires
        are_digits(d),
    ensures
        number(d) < pow10(d.len()),
    decreases d.len(),
{
    if d.len() > 0 {
        assert forall|i: int| 0 <= i < d.drop_first().len() implies d.drop_first()[i] < 10 by {
            assert(d.drop_first()[i] == d[i + 1]);
        }
        lemma_number_bound(d.drop_first());
    }
}

proof fn lemma_take_bound(d: Seq<u8>, k: int)
    requires
        are_digits(d),
        0 <= k <= d.len(),
    ensures
        number(d.take(k)) < pow10(k as nat),
{
    let low = d.take(k);
    assert forall|i: int| 0 <= i < low.len() implies low[i] < 10 by {
        assert(low[i] == d[i]);
    }
    lemma_number_bound(low);
}

/// Multiplies the digits in place and returns what carries out of the top.
fn multiply(d: &mut Vec<u8>, c: u8) -> (carry: u8)
    requires
        are_digits(old(d)@),
        1 <= c <= 5,
    ensures
        are_digits(final(d)@),
        final(d)@.len() == old(d)@.len(),
        carry < 10,
        number(final(d)@) + pow10(final(d)@.len()) * carry == number(old(d)@) * c,
{
    let mut carry: u8 = 0;
    let mut i: usize = 0;
    let ghost before = d@;
    proof {
        assert(pow10(0) * 0 == 0);
        assert(number(before.take(0)) * c == 0) by (nonlinear_arith)
            requires
                number(before.take(0)) == 0,
        ;
    }
    while i < d.len()
        invariant
            i <= d@.len(),
            d@.len() == before.len(),
            are_digits(d@),
            are_digits(before),
            d@.skip(i as int) == before.skip(i as int),
            carry < c,
            1 <= c <= 5,
            number(d@.take(i as int)) + pow10(i as nat) * carry == number(before.take(i as int))
                * c,
        decreases d@.len() - i,
    {
        assert(d@[i as int] < 10);
        assert(d@[i as int] * c <= 9 * c <= 9 * 5) by (nonlinear_arith)
            requires
                d@[i as int] < 10,
                c <= 5,
        ;
        let x: u8 = d[i] * c + carry;
        let ghost at = d@;
        proof {
            assert(at.skip(i as int)[0] == before.skip(i as int)[0]);
        }
        d.set(i, x % 10);
        proof {
            let p = pow10(i as nat);
            let digit = (x % 10) as nat;
            let up = (x / 10) as nat;
            let b = before[i as int] as nat;
            assert(d@.take(i + 1) == at.take(i as int).push(x % 10));
            assert(before.take(i + 1) == before.take(i as int).push(before[i as int]));
            lemma_number_push(at.take(i as int), x % 10);
            lemma_number_push(before.take(i as int), before[i as int]);
            let lo = number(at.take(i as int));
            let lob = number(before.take(i as int));
            assert(lo + p * digit + (10 * p) * up == (lob + p * b) * c) by (nonlinear_arith)
                requires
                    lo + p * carry == lob * c,
                    digit + 10 * up == b * c + carry,
            ;
            let above = d@.skip(i + 1);
            let above_before = before.skip(i + 1);
            assert forall|j: int| 0 <= j < above.len() implies #[trigger] above[j]
                == above_before[j] by {
                assert(at.skip(i as int)[j + 1] == before.skip(i as int)[j + 1]);
            }
            assert(above == above_before);
        }
        carry = x / 10;
        i += 1;
    }
    proof {
        assert(d@.take(i as int) == d@);
        assert(before.take(i as int) == before);
    }
    carry
}

/// The integer part of the numeral with `f` decimals, or two to the power of 53
/// where it is at least that.
fn integer_part(d: &Vec<u8>, f: usize) -> (q: u64)
    requires
        are_digits(d@),
        f <= d@.len(),
    ensures
        q < pow2(53) ==> q == number(d@.skip(f as int)),
        q >= pow2(53) ==> number(d@.skip(f as int)) >= pow2(53),
{
    proof {
        lemma2_to64_rest();
    }
    let mut i: usize = d.len();
    let mut q: u64 = 0;
    while i > f
        invariant
            f <= i <= d@.len(),
            are_digits(d@),
            q == number(d@.skip(i as int)),
            q < 0x20_0000_0000_0000,
            pow2(53) == 0x20_0000_0000_0000,
        decreases i,
    {
        assert(d@.skip(i - 1).drop_first() == d@.skip(i as int));
        q = q * 10 + d[i - 1] as u64;
        i -= 1;
        if q >= 0x20_0000_0000_0000 {
            proof {
                lemma_number_grows(d@, f as int, i as int);
            }
            return 0x20_0000_0000_0000;
        }
    }
    q
}

proof fn lemma_number_grows(d: Seq<u8>, f: int, i: int)
    requires
        0 <= f <= i <= d.len(),
    ensures
        number(d.skip(f)) >= number(d.skip(i)),
    decreases i - f,
{
    if f < i {
        lemma_number_grows(d, f + 1, i);
        assert(d.skip(f).drop_first() == d.skip(f + 1));
    }
}

/// Whether the first `n` digits are all zero.
fn all_zero(d: &Vec<u8>, n: usize) -> (r: bool)
    requires
        n <= d@.len(),
    ensures
        r == (number(d@.take(n as int)) == 0),
{
    let mut i: usize = 0;
    while i < n
        invariant
            i <= n <= d@.len(),
            number(d@.take(i as int)) == 0,
        decreases n - i,
    {
        proof {
            assert(d@.take(i + 1) == d@.take(i as int).push(d@[i as int]));
            lemma_number_push(d@.take(i as int), d@[i as int]);
            lemma_pow10_pos(i as nat);
            let p = pow10(i as nat);
            let x = d@[i as int] as nat;
            assert(x > 0 ==> p * x > 0) by (nonlinear_arith)
                requires
                    p > 0,
            ;
            assert(x == 0 ==> p * x == 0) by (nonlinear_arith);
        }
        if d[i] != 0 {
            proof {
                lemma_number_split(d@.take(n as int), i + 1);
                assert(d@.take(n as int).take(i + 1) == d@.take(i + 1));
                lemma_pow10_pos((i + 1) as nat);
                let p = pow10((i + 1) as nat);
                let x = number(d@.take(n as int).skip(i + 1));
                assert(p * x >= 0) by (nonlinear_arith)
                    requires
                        p > 0,
                        x >= 0,
                ;
            }
            return false;
        }
        i += 1;
    }
    true
}

/// The numeral with `f` decimals rounded to the nearest integer, ties to even.
fn round_half_even(d: &Vec<u8>, f: usize) -> (r: u64)
    requires
        are_digits(d@),
        f <= d@.len(),
        number(d@.skip(f as int)) < pow2(53),
    ensures
        r == half_even(number(d@), pow10(f as nat)),
{
    let q = integer_part(d, f);
    proof {
        lemma2_to64_rest();
        let v = number(d@);
        let low = number(d@.take(f as int));
        let p = pow10(f as nat);
        lemma_number_split(d@, f as int);
        lemma_take_bound(d@, f as int);
        assert(v == q * p + low) by (nonlinear_arith)
            requires
                v == low + p * q,
        ;
        lemma_fundamental_div_mod_converse(v as int, p as int, q as int, low as int);
    }
    if f == 0 {
        return q;
    }
    let top = d[f - 1];
    let ghost p = pow10((f - 1) as nat);
    let ghost low = number(d@.take(f - 1));
    proof {
        assert(d@.take(f as int) == d@.take(f - 1).push(top));
        lemma_number_push(d@.take(f - 1), top);
        lemma_take_bound(d@, f - 1);
    }
    if top < 5 {
        assert(2 * (low + p * top) < 10 * p) by (nonlinear_arith)
            requires
                low < p,
                top <= 4,
        ;
        q
    } else if top > 5 {
        assert(2 * (low + p * top) > 10 * p) by (nonlinear_arith)
            requires
                low < p,
                low >= 0,
                top >= 6,
        ;
        q + 1
    } else if all_zero(d, f - 1) {
        assert(2 * (low + p * top) == 10 * p) by (nonlinear_arith)
            requires
                low == 0,
                top == 5,
        ;
        if q % 2 == 0 {
            q
        } else {
            q + 1
        }
    } else {
        assert(2 * (low + p * top) > 10 * p) by (nonlinear_arith)
            requires
                low > 0,
                top == 5,
        ;
        q + 1
    }
}

/// The double nearest to the numeral with the digits `digits`, the last one
/// first, of which the first `decimals` stand after the point; nothing where it
/// lies beyond the largest finite double.
pub fn to_double(digits: Vec<u8>, decimals: usize) -> (x: Option<Double>)
    requires
        are_digits(digits@),
        decimals <= digits@.len(),
    ensures
        ({
            let y = nearest(number(digits@), pow10(decimals as nat));
            match x {
                Some(x) => x@ == y && normal(y) && !overflows(y),
                None => overflows(y),
            }
        }),
{
    let ghost num = number(digits@);
    let ghost den = pow10(decimals as nat);
    proof {
        lemma2_to64_rest();
        lemma_pow10_pos(decimals as nat);
        lemma_pow2_pos(1074);
    }
    let mut d: Vec<u8> = digits;
    let mut f: usize = decimals;
    let mut g: u32 = 1074;
    proof {
        assert(num * pow2(1074) * pow10(f as nat) == number(d@) * (den * pow2(1074)))
            by (nonlinear_arith)
            requires
                number(d@) == num,
                pow10(f as nat) == den,
        ;
    }
    let mut q = integer_part(&d, f);
    while q >= 0x20_0000_0000_0000
        invariant
            num == number(digits@),
            den == pow10(decimals as nat),
            are_digits(d@),
            f <= d@.len(),
            1074 <= g <= 2045,
            den > 0,
            pow2(53) == 0x20_0000_0000_0000,
            pow2(52) == 0x10_0000_0000_0000,
            num * pow2(1074) * pow10(f as nat) == number(d@) * (den * pow2(g as nat)),
            q < pow2(53) ==> q == number(d@.skip(f as int)),
            q >= pow2(53) ==> number(d@.skip(f as int)) >= pow2(53),
            g > 1074 ==> number(d@) >= pow2(52) * pow10(f as nat),
        decreases 2045 - g, q,
    {
        proof {
            lemma_at_least(d@, f as int, pow2(53));
        }
        if g == 2045 {
            proof {
                let n = num * pow2(1074);
                let b = pow10(f as nat);
                let v = number(d@);
                lemma_pow10_pos(f as nat);
                lemma_pow2_pos(2045);
                let dd = den * pow2(2045);
                assert(dd > 0) by (nonlinear_arith)
                    requires
                        dd == den * pow2(2045),
                        den > 0,
                        pow2(2045) > 0,
                ;
                assert(n >= pow2(53) * dd) by (nonlinear_arith)
                    requires
                        n * b == v * dd,
                        v >= pow2(53) * b,
                        b > 0,
                        dd > 0,
                ;
                lemma_grade_above(n, den, 2045);
            }
            return None;
        }
        let ghost v = number(d@);
        let ghost old_f = f as nat;
        let carry = multiply(&mut d, 5);
        let ghost body = d@;
        d.push(carry);
        proof {
            lemma_number_push(body, carry);
            assert(number(d@) == v * 5);
            lemma_pow2_unfold((g + 1) as nat);
            let b = pow10(old_f);
            let p = pow2(g as nat);
            let n = num * pow2(1074);
            assert(n * (10 * b) == (v * 5) * (den * (2 * p))) by (nonlinear_arith)
                requires
                    n * b == v * (den * p),
            ;
            assert(v * 5 >= pow2(52) * (10 * b)) by (nonlinear_arith)
                requires
                    v >= pow2(53) * b,
                    pow2(53) == 2 * pow2(52),
            ;
        }
        assert(d.len() <= usize::MAX);
        f = f + 1;
        g = g + 1;
        q = integer_part(&d, f);
    }
    if g == 1074 {
        while g > 0 && q < 0x10_0000_0000_0000
            invariant
                are_digits(d@),
                f <= d@.len(),
                g <= 1074,
                den > 0,
                pow2(53) == 0x20_0000_0000_0000,
                pow2(52) == 0x10_0000_0000_0000,
                num * pow2(1074) * pow10(f as nat) == number(d@) * (den * pow2(g as nat)),
                q == number(d@.skip(f as int)),
                q < pow2(53),
            decreases g,
        {
            let ghost v = number(d@);
            proof {
                lemma_below(d@, f as int, pow2(52));
            }
            let carry = multiply(&mut d, 2);
            let ghost body = d@;
            if carry > 0 {
                d.push(carry);
            }
            proof {
                lemma_number_push(body, carry);
                assert(pow10(body.len()) * 0 == 0);
                assert(number(d@) == v * 2);
                lemma_pow2_unfold(g as nat);
                let b = pow10(f as nat);
                let p = pow2((g - 1) as nat);
                let n = num * pow2(1074);
                assert(n * b == (v * 2) * (den * p)) by (nonlinear_arith)
                    requires
                        n * b == v * (den * (2 * p)),
                ;
                assert(number(d@) < pow2(53) * b) by (nonlinear_arith)
                    requires
                        number(d@) == v * 2,
                        v < pow2(52) * b,
                        pow2(53) == 2 * pow2(52),
                ;
                lemma_whole_below(d@, f as int, pow2(53));
            }
            g = g - 1;
            q = integer_part(&d, f);
        }
        proof {
            if g > 0 {
                lemma_at_least(d@, f as int, pow2(52));
            }
        }
    }
    proof {
        lemma_below(d@, f as int, pow2(53));
        lemma_pow10_pos(f as nat);
        lemma_nearest(num, den, g as nat, number(d@), pow10(f as nat));
    }
    let mant = round_half_even(&d, f);
    if g == 2045 && mant >= 0x20_0000_0000_0000 {
        return None;
    }
    Some(Double { mant, grade: g })
}

/// A numeral whose integer part is at least `c` is at least `c`.
proof fn lemma_at_least(d: Seq<u8>, f: int, c: nat)
    requires
        0 <= f <= d.len(),
        number(d.skip(f)) >= c,
    ensures
        number(d) >= c * pow10(f as nat),
{
    lemma_number_split(d, f);
    let p = pow10(f as nat);
    let q = number(d.skip(f));
    assert(p * q >= c * p) by (nonlinear_arith)
        requires
            q >= c,
            p >= 0,
    ;
}

/// A numeral whose integer part is below `c` is below `c`.
proof fn lemma_below(d: Seq<u8>, f: int, c: nat)
    requires
        0 <= f <= d.len(),
        are_digits(d),
        number(d.skip(f)) < c,
    ensures
        number(d) < c * pow10(f as nat),
{
    lemma_number_split(d, f);
    lemma_take_bound(d, f);
    let p = pow10(f as nat);
    let q = number(d.skip(f));
    let low = number(d.take(f));
    assert(low + p * q < c * p) by (nonlinear_arith)
        requires
            low < p,
            q + 1 <= c,
    ;
}

/// A numeral below `c` has an integer part below `c`.
proof fn lemma_whole_below(d: Seq<u8>, f: int, c: nat)
    requires
        0 <= f <= d.len(),
        number(d) < c * pow10(f as nat),
    ensures
        number(d.skip(f)) < c,
{
    if number(d.skip(f)) >= c {
        lemma_at_least(d, f, c);
    }
}

/// The powers of ten, and the number that digits write, the last one first.
pub proof fn powers_and_digits(n: nat, first: u8, rest: Seq<u8>)
    ensures
        pow10(0) == 1,
        pow10(n + 1) == 10 * pow10(n),
        number(Seq::empty()) == 0,
        number(seq![first] + rest) == first + 10 * number(rest),
{
    assert((seq![first] + rest).drop_first() =~= rest);
}

} // verus!
