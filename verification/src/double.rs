//! Arithmetic on non-negative IEEE 754 `binary64` numbers, in integers.
//!
//! Sizes and poll intervals are computed in double precision, and what they
//! round to shows. This module states what the nearest double to a quotient of
//! naturals is, and computes the few operations that the library needs:
//! conversion from an integer and from a decimal numeral, division by a
//! thousand, multiplication by a small factor, and rounding to an integer.
use vstd::arithmetic::div_mod::{
    lemma_div_denominator,
    lemma_fundamental_div_mod,
    lemma_fundamental_div_mod_converse,
};
use vstd::arithmetic::power2::{
    lemma2_to64,
    lemma2_to64_rest,
    lemma_pow2_adds,
    lemma_pow2_pos,
    lemma_pow2_unfold,
    pow2,
};
use vstd::prelude::*;

verus! {

/// A non-negative double: `mant` times two to the power of `grade - 1074`,
/// so that grade 0 holds the subnormal numbers.
#[derive(Clone, Copy)]
pub struct Double {
    pub mant: u64,
    pub grade: u32,
}

/// The mathematical value of a double, as `mant` and `grade`.
pub ghost struct Dyadic {
    pub mant: nat,
    pub grade: nat,
}

impl View for Double {
    type V = Dyadic;

    open spec fn view(&self) -> Dyadic {
        Dyadic { mant: self.mant as nat, grade: self.grade as nat }
    }
}

/// The quotient `n / d` rounded to the nearest natural, ties to the even one.
pub open spec fn half_even(n: nat, d: nat) -> nat {
    let q = n / d;
    let r = n % d;
    if 2 * r < d || (2 * r == d && q % 2 == 0) {
        q
    } else {
        q + 1
    }
}

/// How often `d` has to be doubled until the quotient `n / d` takes at most 53
/// bits.
pub open spec fn grade(n: nat, d: nat) -> nat
    decreases n - d,
{
    if d == 0 || n < pow2(53) * d {
        0
    } else {
        proof {
            lemma2_to64_rest();
            assert(n >= 2 * d) by (nonlinear_arith)
                requires
                    n >= pow2(53) * d,
                    pow2(53) >= 2,
            ;
        }
        1 + grade(n, 2 * d)
    }
}

/// The double nearest to `num / den`, ties to the even mantissa. The exponent
/// is not bounded above: see `overflows`.
pub open spec fn nearest(num: nat, den: nat) -> Dyadic {
    let n = num * pow2(1074);
    let k = grade(n, den);
    Dyadic { mant: half_even(n, den * pow2(k)), grade: k }
}

/// Whether the number lies beyond the largest finite double.
pub open spec fn overflows(x: Dyadic) -> bool {
    x.grade > 2045 || (x.grade == 2045 && x.mant >= pow2(53))
}

/// The double nearest to `x / c`.
pub open spec fn over(x: Dyadic, c: nat) -> Dyadic {
    nearest(x.mant * pow2(x.grade), c * pow2(1074))
}

/// The double nearest to `x * c`.
pub open spec fn times(x: Dyadic, c: nat) -> Dyadic {
    nearest(x.mant * pow2(x.grade) * c, pow2(1074))
}

/// Whether `x` is less than `y`.
pub open spec fn less(x: Dyadic, y: Dyadic) -> bool {
    x.mant * pow2(x.grade) < y.mant * pow2(y.grade)
}

/// `x * c` rounded to the nearest natural, ties to the even one: what printing
/// a number with a fixed count of decimals shows.
pub open spec fn shown(x: Dyadic, c: nat) -> nat {
    half_even(x.mant * pow2(x.grade) * c, pow2(1074))
}

/// `x` rounded to the nearest natural, ties upwards.
pub open spec fn rounded(x: Dyadic) -> nat {
    (2 * x.mant * pow2(x.grade) + pow2(1074)) / (2 * pow2(1074))
}

/// The mantissa is in the range that rounding leaves it in.
pub open spec fn normal(x: Dyadic) -> bool {
    &&& x.mant <= pow2(53)
    &&& x.grade > 0 ==> x.mant >= pow2(52)
}

proof fn lemma_half_even_cancel(n: nat, d: nat, c: nat)
    requires
        d > 0,
        c > 0,
    ensures
        half_even(n * c, d * c) == half_even(n, d),
        half_even(c * n, c * d) == half_even(n, d),
{
    let q = n / d;
    let r = n % d;
    lemma_fundamental_div_mod(n as int, d as int);
    assert(n * c == q * (d * c) + r * c) by (nonlinear_arith)
        requires
            n == d * q + r,
    ;
    assert(0 <= r * c < d * c) by (nonlinear_arith)
        requires
            0 <= r < d,
            c > 0,
    ;
    lemma_fundamental_div_mod_converse((n * c) as int, (d * c) as int, q as int, (r * c) as int);
    assert(2 * (r * c) < d * c <==> 2 * r < d) by (nonlinear_arith)
        requires
            c > 0,
    ;
    assert(2 * (r * c) == d * c <==> 2 * r == d) by (nonlinear_arith)
        requires
            c > 0,
    ;
    assert(n * c == c * n) by (nonlinear_arith);
    assert(d * c == c * d) by (nonlinear_arith);
}

/// Equal quotients round alike.
proof fn lemma_half_even_cross(n: nat, d: nat, a: nat, b: nat)
    requires
        d > 0,
        b > 0,
        n * b == a * d,
    ensures
        half_even(n, d) == half_even(a, b),
{
    lemma_half_even_cancel(n, d, b);
    lemma_half_even_cancel(a, b, d);
    assert(d * b == b * d) by (nonlinear_arith);
}

proof fn lemma_grade(n: nat, d: nat, k: nat)
    requires
        d > 0,
        n < pow2(53) * (d * pow2(k)),
        k > 0 ==> n >= pow2(52) * (d * pow2(k)),
    ensures
        grade(n, d) == k,
    decreases k,
{
    lemma2_to64();
    lemma2_to64_rest();
    lemma_pow2_pos(k);
    if k == 0 {
        assert(d * pow2(0) == d) by (nonlinear_arith)
            requires
                pow2(0) == 1,
        ;
    } else {
        lemma_pow2_unfold(k);
        lemma_pow2_pos((k - 1) as nat);
        let p = pow2((k - 1) as nat);
        assert(d * pow2(k) == (2 * d) * p) by (nonlinear_arith)
            requires
                pow2(k) == 2 * p,
        ;
        assert(n >= pow2(53) * d) by (nonlinear_arith)
            requires
                n >= pow2(52) * ((2 * d) * p),
                pow2(53) == 2 * pow2(52),
                p >= 1,
        ;
        if k > 1 {
            assert(n >= pow2(52) * ((2 * d) * p));
        }
        lemma_grade(n, 2 * d, (k - 1) as nat);
    }
}

/// A quotient that takes more than 53 bits even in grade `k` has a higher one.
pub proof fn lemma_grade_above(n: nat, d: nat, k: nat)
    requires
        d > 0,
        n >= pow2(53) * (d * pow2(k)),
    ensures
        grade(n, d) > k,
    decreases k,
{
    lemma2_to64();
    lemma2_to64_rest();
    lemma_pow2_pos(k);
    assert(n >= pow2(53) * d) by (nonlinear_arith)
        requires
            n >= pow2(53) * (d * pow2(k)),
            pow2(k) >= 1,
    ;
    if k > 0 {
        lemma_pow2_unfold(k);
        let p = pow2((k - 1) as nat);
        assert(d * pow2(k) == (2 * d) * p) by (nonlinear_arith)
            requires
                pow2(k) == 2 * p,
        ;
        lemma_grade_above(n, 2 * d, (k - 1) as nat);
    }
}

/// Where `num / den`, in units of the spacing of grade `k`, is `a / b` and takes
/// 53 bits, that grade is the right one.
pub proof fn lemma_nearest(num: nat, den: nat, k: nat, a: nat, b: nat)
    requires
        den > 0,
        b > 0,
        num * pow2(1074) * b == a * (den * pow2(k)),
        a < pow2(53) * b,
        k > 0 ==> a >= pow2(52) * b,
    ensures
        nearest(num, den) == (Dyadic { mant: half_even(a, b), grade: k }),
        normal(nearest(num, den)),
{
    lemma_pow2_pos(k);
    lemma_pow2_pos(1074);
    let n = num * pow2(1074);
    let d = den * pow2(k);
    assert(d > 0) by (nonlinear_arith)
        requires
            den > 0,
            pow2(k) > 0,
            d == den * pow2(k),
    ;
    lemma_half_even_cross(n, d, a, b);
    assert(n < pow2(53) * d) by (nonlinear_arith)
        requires
            n * b == a * d,
            a < pow2(53) * b,
            b > 0,
            d > 0,
    ;
    if k > 0 {
        assert(n >= pow2(52) * d) by (nonlinear_arith)
            requires
                n * b == a * d,
                a >= pow2(52) * b,
                b > 0,
                d > 0,
        ;
    }
    lemma_grade(n, den, k);
    lemma_half_even_bounds(a, b);
    lemma2_to64_rest();
    if k > 0 {
        assert(a / b >= pow2(52)) by (nonlinear_arith)
            requires
                a >= pow2(52) * b,
                b > 0,
        ;
    }
    assert(a / b < pow2(53)) by (nonlinear_arith)
        requires
            a < pow2(53) * b,
            b > 0,
    ;
}

proof fn lemma_half_even_bounds(n: nat, d: nat)
    requires
        d > 0,
    ensures
        n / d <= half_even(n, d) <= n / d + 1,
{
}

proof fn lemma_pow2_ordered(a: nat, b: nat)
    requires
        a <= b,
    ensures
        pow2(a) <= pow2(b),
{
    if a < b {
        vstd::arithmetic::power2::lemma_pow2_strictly_increases(a, b);
    }
}

/// The quotient of `n` by `d`, rounded to the nearest integer, ties to even.
pub fn div_half_even(n: u128, d: u128) -> (r: u128)
    requires
        d > 0,
    ensures
        r == half_even(n as nat, d as nat),
{
    let q: u128 = n / d;
    let rem: u128 = n % d;
    let rest: u128 = d - rem;
    if rem < rest || (rem == rest && q % 2 == 0) {
        q
    } else {
        assert(q + 1 <= u128::MAX) by (nonlinear_arith)
            requires
                q == n / d,
                d > 1,
                n <= u128::MAX,
        ;
        q + 1
    }
}

/// The double nearest to the positive integer `n`.
pub fn from_integer(n: u64) -> (x: Double)
    requires
        n > 0,
    ensures
        x@ == nearest(n as nat, 1),
        normal(x@),
        1021 < x.grade <= 1085,
{
    proof {
        lemma2_to64();
        lemma2_to64_rest();
    }
    if n < 0x20_0000_0000_0000 {
        let mut m: u64 = n;
        let mut g: u32 = 1074;
        proof {
            assert(n * pow2(0) == n) by (nonlinear_arith)
                requires
                    pow2(0) == 1,
            ;
        }
        while m < 0x10_0000_0000_0000
            invariant
                0 < m < 0x20_0000_0000_0000,
                g <= 1074,
                m == n * pow2((1074 - g) as nat),
                m >= pow2((1074 - g) as nat),
                pow2(52) == 0x10_0000_0000_0000,
            decreases 0x20_0000_0000_0000 - m,
        {
            proof {
                if 1074 - g >= 52 {
                    if 1074 - g > 52 {
                        vstd::arithmetic::power2::lemma_pow2_strictly_increases(
                            52,
                            (1074 - g) as nat,
                        );
                    }
                    assert(false);
                }
                lemma_pow2_unfold((1074 - (g - 1)) as nat);
                let p = pow2((1074 - g) as nat);
                assert(2 * (n * p) == n * (2 * p)) by (nonlinear_arith);
            }
            m = 2 * m;
            g = g - 1;
        }
        proof {
            let j = (1074 - g) as nat;
            if j > 52 {
                vstd::arithmetic::power2::lemma_pow2_strictly_increases(52, j);
                lemma_pow2_ordered(53, j);
                assert(false);
            }
            lemma_pow2_adds(j, g as nat);
            let a = m as nat;
            assert(n * pow2(1074) * 1 == a * (1 * pow2(g as nat))) by (nonlinear_arith)
                requires
                    a == n * pow2(j),
                    pow2(1074) == pow2(j) * pow2(g as nat),
            ;
            lemma_nearest(n as nat, 1, g as nat, a, 1);
        }
        Double { mant: m, grade: g }
    } else {
        let mut d: u64 = 1;
        let mut g: u32 = 1074;
        while n / d >= 0x20_0000_0000_0000
            invariant
                n >= 0x20_0000_0000_0000,
                1074 <= g <= 1085,
                1 <= d,
                d == pow2((g - 1074) as nat),
                n / d >= 0x10_0000_0000_0000,
                pow2(11) == 2048,
            decreases n / d,
        {
            proof {
                lemma_pow2_unfold((g + 1 - 1074) as nat);
                assert(d < 2048) by (nonlinear_arith)
                    requires
                        n / d >= 0x20_0000_0000_0000,
                        d >= 1,
                        n <= u64::MAX,
                ;
                lemma_div_denominator(n as int, d as int, 2);
                if g == 1085 {
                    assert(false);
                }
            }
            d = 2 * d;
            g = g + 1;
        }
        proof {
            let j = (g - 1074) as nat;
            lemma_pow2_adds(1074, j);
            assert(n * pow2(1074) * d == n * (1 * pow2(g as nat))) by (nonlinear_arith)
                requires
                    d == pow2(j),
                    pow2(g as nat) == pow2(1074) * pow2(j),
            ;
            assert(n < 0x20_0000_0000_0000 * d && n >= 0x10_0000_0000_0000 * d) by (nonlinear_arith)
                requires
                    n / d < 0x20_0000_0000_0000,
                    n / d >= 0x10_0000_0000_0000,
                    d >= 1,
            ;
            lemma_nearest(n as nat, 1, g as nat, n as nat, d as nat);
        }
        Double { mant: div_half_even(n as u128, d as u128) as u64, grade: g }
    }
}

/// The double nearest to a thousandth of `x`.
pub fn over_thousand(x: Double) -> (y: Double)
    requires
        normal(x@),
        x.grade > 10,
    ensures
        y@ == over(x@, 1000),
        normal(y@),
        y.grade == x.grade - 9 || y.grade == x.grade - 10,
        y.grade == x.grade - 9 <==> x.mant >= 1000 * 0x800_0000_0000,
        y.grade == x.grade - 9 ==> y.mant < 0x11_0000_0000_0000,
{
    proof {
        lemma2_to64();
        lemma2_to64_rest();
    }
    let high = x.mant >= 1000 * 0x800_0000_0000;
    let j: u32 = if high { 9 } else { 10 };
    let factor: u64 = if high { 512 } else { 1024 };
    let a: u64 = x.mant * factor;
    proof {
        let g = x.grade as nat;
        let k = (g - j) as nat;
        lemma_pow2_adds(k, j as nat);
        lemma_pow2_pos(1074);
        let m = x.mant as nat;
        let c = pow2(1074);
        let num = m * pow2(g);
        assert(num * c * 1000 == a * ((1000 * c) * pow2(k))) by (nonlinear_arith)
            requires
                a == m * factor,
                num == m * pow2(g),
                pow2(g) == pow2(k) * factor,
        ;
        lemma_nearest(num, 1000 * c, k, a as nat, 1000);
        lemma_half_even_bounds(a as nat, 1000);
    }
    Double { mant: div_half_even(a as u128, 1000) as u64, grade: x.grade - j }
}

/// Whether `x` is less than `y`.
pub fn is_less(x: Double, y: Double) -> (r: bool)
    requires
        normal(x@),
        normal(y@),
    ensures
        r == less(x@, y@),
{
    proof {
        lemma2_to64_rest();
        lemma_pow2_pos(x.grade as nat);
        lemma_pow2_pos(y.grade as nat);
        let px = pow2(x.grade as nat);
        let py = pow2(y.grade as nat);
        if x.grade == y.grade {
            assert(x.mant * px < y.mant * px <==> x.mant < y.mant) by (nonlinear_arith)
                requires
                    px > 0,
            ;
        } else if x.grade < y.grade {
            lemma_grades_apart(x@, y@);
        } else {
            lemma_grades_apart(y@, x@);
        }
    }
    if x.grade == y.grade {
        x.mant < y.mant
    } else if x.grade < y.grade {
        x.mant < 0x20_0000_0000_0000 || y.mant > 0x10_0000_0000_0000 || y.grade - x.grade > 1
    } else {
        false
    }
}

/// A number below another has at most its grade.
pub proof fn lemma_not_above(x: Dyadic, y: Dyadic)
    requires
        normal(x),
        normal(y),
        less(x, y),
    ensures
        x.grade <= y.grade,
{
    if y.grade < x.grade {
        lemma_grades_apart(y, x);
    }
}

/// A number not below another has at least its grade, but where rounding left
/// it on the border.
pub proof fn lemma_not_below(x: Dyadic, y: Dyadic)
    requires
        normal(x),
        normal(y),
        !less(x, y),
    ensures
        x.grade + 1 >= y.grade,
{
    if x.grade < y.grade {
        lemma_grades_apart(x, y);
    }
}

/// A quotient less than half above `c` rounds to `c` at most.
pub proof fn lemma_half_even_below(n: nat, d: nat, c: nat)
    requires
        d > 0,
        2 * n < (2 * c + 1) * d,
    ensures
        half_even(n, d) <= c,
{
    let q = n / d;
    let r = n % d;
    lemma_fundamental_div_mod(n as int, d as int);
    assert(q <= c) by (nonlinear_arith)
        requires
            n == d * q + r,
            r >= 0,
            d > 0,
            2 * n < (2 * c + 1) * d,
    ;
    if q == c {
        assert(2 * r < d) by (nonlinear_arith)
            requires
                n == d * c + r,
                2 * n < (2 * c + 1) * d,
        ;
    }
}

/// A number of a lower grade is at most one of a higher grade.
pub proof fn lemma_grades_apart(x: Dyadic, y: Dyadic)
    requires
        normal(x),
        normal(y),
        x.grade < y.grade,
    ensures
        !less(y, x),
        less(x, y) <==> (x.mant < pow2(53) || y.mant > pow2(52) || y.grade - x.grade > 1),
{
    lemma2_to64_rest();
    lemma_pow2_pos(x.grade);
    lemma_pow2_unfold((x.grade + 1) as nat);
    let p = pow2(x.grade);
    let q = pow2((x.grade + 1) as nat);
    let r = pow2(y.grade);
    assert(q == 2 * p);
    lemma_pow2_ordered((x.grade + 1) as nat, y.grade);
    assert(x.mant * p <= pow2(53) * p) by (nonlinear_arith)
        requires
            x.mant <= pow2(53),
    ;
    assert(pow2(52) * r <= y.mant * r) by (nonlinear_arith)
        requires
            pow2(52) <= y.mant,
    ;
    assert(pow2(53) * p == pow2(52) * q) by (nonlinear_arith)
        requires
            q == 2 * p,
            pow2(53) == 2 * pow2(52),
    ;
    assert(pow2(52) * q <= pow2(52) * r) by (nonlinear_arith)
        requires
            q <= r,
    ;
    if x.mant < pow2(53) {
        assert(x.mant * p < pow2(53) * p) by (nonlinear_arith)
            requires
                x.mant < pow2(53),
                p > 0,
        ;
    } else if y.mant > pow2(52) {
        assert(pow2(52) * r < y.mant * r) by (nonlinear_arith)
            requires
                pow2(52) < y.mant,
                r > 0,
        ;
    } else if y.grade - x.grade > 1 {
        vstd::arithmetic::power2::lemma_pow2_strictly_increases((x.grade + 1) as nat, y.grade);
        assert(pow2(52) * q < pow2(52) * r) by (nonlinear_arith)
            requires
                q < r,
                pow2(52) > 0,
        ;
    } else {
        assert(y.grade == x.grade + 1);
        assert(x.mant == pow2(53));
    }
}

/// `x * c` rounded to the nearest integer, ties to even.
pub fn show(x: Double, c: u64) -> (r: u64)
    requires
        normal(x@),
        1000 < x.grade <= 1074,
        0 < c <= 10,
    ensures
        r == shown(x@, c as nat),
{
    proof {
        lemma2_to64_rest();
    }
    let mut d: u128 = 1;
    let mut g: u32 = x.grade;
    proof {
        lemma2_to64();
        lemma_pow2_adds(64, 10);
    }
    while g < 1074
        invariant
            1000 < x.grade <= g <= 1074,
            d == pow2((g - x.grade) as nat),
            0 < d,
            pow2(74) == pow2(64) * pow2(10),
            pow2(64) == 0x1_0000_0000_0000_0000,
            pow2(10) == 1024,
        decreases 1074 - g,
    {
        proof {
            lemma_pow2_unfold((g + 1 - x.grade) as nat);
            lemma_pow2_ordered((g - x.grade) as nat, 74);
        }
        d = 2 * d;
        g = g + 1;
    }
    assert(x.mant * c <= 0x20_0000_0000_0000 * 10) by (nonlinear_arith)
        requires
            x.mant <= 0x20_0000_0000_0000,
            c <= 10,
    ;
    let a: u128 = x.mant as u128 * c as u128;
    proof {
        let gx = x.grade as nat;
        let j = (1074 - gx) as nat;
        lemma_pow2_adds(j, gx);
        lemma_pow2_pos(gx);
        let p = pow2(gx);
        assert(x.mant * p * c == a * p) by (nonlinear_arith)
            requires
                a == x.mant * c,
        ;
        lemma_half_even_cancel(a as nat, d as nat, p);
        assert(a * p == p * a && p * d == d * p) by (nonlinear_arith);
        lemma_half_even_bounds(a as nat, d as nat);
        assert(a / d <= a) by (nonlinear_arith)
            requires
                d > 0,
        ;
    }
    div_half_even(a, d) as u64
}

/// The double nearest to `x * c`.
pub fn scale(x: Double, c: u64) -> (y: Double)
    requires
        normal(x@),
        x.grade <= 2045,
        0 < c <= 60_000,
    ensures
        y@ == times(x@, c as nat),
        normal(y@),
{
    proof {
        lemma2_to64();
        lemma2_to64_rest();
    }
    assert(x.mant * c <= 0x20_0000_0000_0000 * 60_000 && x.mant <= x.mant * c) by (nonlinear_arith)
        requires
            x.mant <= 0x20_0000_0000_0000,
            1 <= c <= 60_000,
    ;
    let a: u128 = x.mant as u128 * c as u128;
    let mut d: u128 = 1;
    let mut j: u32 = 0;
    while a / d >= 0x20_0000_0000_0000
        invariant
            j <= 17,
            1 <= d,
            d == pow2(j as nat),
            j > 0 ==> a / d >= 0x10_0000_0000_0000,
            a <= 0x20_0000_0000_0000 * 60_000,
            pow2(17) == 0x2_0000,
        decreases a / d,
    {
        proof {
            lemma_pow2_unfold((j + 1) as nat);
            assert(d <= 60_000) by (nonlinear_arith)
                requires
                    a / d >= 0x20_0000_0000_0000,
                    d >= 1,
                    a <= 0x20_0000_0000_0000 * 60_000,
            ;
            lemma_div_denominator(a as int, d as int, 2);
        }
        d = 2 * d;
        j = j + 1;
    }
    proof {
        let g = x.grade as nat;
        let k = (g + j) as nat;
        lemma_pow2_adds(g, j as nat);
        let c1 = pow2(1074);
        lemma_pow2_pos(1074);
        let num = x.mant * pow2(g) * c;
        assert(num * c1 * d == a * (c1 * pow2(k))) by (nonlinear_arith)
            requires
                num == x.mant * pow2(g) * c,
                a == x.mant * c,
                pow2(k) == pow2(g) * d,
        ;
        assert(a < 0x20_0000_0000_0000 * d) by (nonlinear_arith)
            requires
                a / d < 0x20_0000_0000_0000,
                d >= 1,
        ;
        if j > 0 {
            assert(a >= 0x10_0000_0000_0000 * d) by (nonlinear_arith)
                requires
                    a / d >= 0x10_0000_0000_0000,
                    d >= 1,
            ;
        }
        lemma_nearest(num as nat, c1, k, a as nat, d as nat);
    }
    Double { mant: div_half_even(a, d) as u64, grade: x.grade + j }
}

proof fn lemma_div_cancel(a: nat, b: nat, c: nat)
    requires
        b > 0,
        c > 0,
    ensures
        (a * c) / (b * c) == a / b,
{
    let q = a / b;
    let r = a % b;
    lemma_fundamental_div_mod(a as int, b as int);
    assert(a * c == q * (b * c) + r * c) by (nonlinear_arith)
        requires
            a == b * q + r,
    ;
    assert(0 <= r * c < b * c) by (nonlinear_arith)
        requires
            0 <= r < b,
            c > 0,
    ;
    lemma_fundamental_div_mod_converse((a * c) as int, (b * c) as int, q as int, (r * c) as int);
}

/// `x` rounded to the nearest integer, ties upwards; the largest integer where
/// it is larger than that.
pub fn round(x: Double) -> (r: u64)
    requires
        normal(x@),
    ensures
        r == if rounded(x@) <= u64::MAX {
            rounded(x@)
        } else {
            u64::MAX as nat
        },
{
    proof {
        lemma2_to64();
        lemma2_to64_rest();
        lemma_pow2_pos(1074);
        lemma_pow2_pos(x.grade as nat);
    }
    let ghost g = x.grade as nat;
    let ghost m = x.mant as nat;
    let ghost top = pow2(1074);
    if x.grade >= 1074 {
        let ghost s = (g - 1074) as nat;
        proof {
            lemma_pow2_adds(1074, s);
            lemma_pow2_pos(s);
            let w = m * pow2(s);
            assert(2 * m * pow2(g) + top == (2 * w + 1) * top) by (nonlinear_arith)
                requires
                    pow2(g) == top * pow2(s),
                    w == m * pow2(s),
            ;
            lemma_div_cancel(2 * w + 1, 2, top);
            assert(rounded(x@) == w);
        }
        if x.grade >= 1086 {
            proof {
                lemma_pow2_ordered(12, s);
                assert(m * pow2(s) >= 0x10_0000_0000_0000 * 4096) by (nonlinear_arith)
                    requires
                        m >= 0x10_0000_0000_0000,
                        pow2(s) >= 4096,
                ;
            }
            return u64::MAX;
        }
        let mut w: u128 = x.mant as u128;
        let mut at: u32 = 1074;
        proof {
            assert(m * pow2(0) == m) by (nonlinear_arith)
                requires
                    pow2(0) == 1,
            ;
        }
        while at < x.grade
            invariant
                1074 <= at <= x.grade < 1086,
                m == x.mant,
                w == m * pow2((at - 1074) as nat),
                w <= m * 4096,
                m <= 0x20_0000_0000_0000,
                pow2(11) == 2048,
            decreases x.grade - at,
        {
            proof {
                let p = pow2((at - 1074) as nat);
                lemma_pow2_unfold((at + 1 - 1074) as nat);
                lemma_pow2_ordered((at + 1 - 1074) as nat, 11);
                assert(2 * (m * p) == m * (2 * p)) by (nonlinear_arith);
                assert(m * (2 * p) <= m * 4096) by (nonlinear_arith)
                    requires
                        2 * p <= 4096,
                ;
            }
            w = 2 * w;
            at = at + 1;
        }
        if w <= u64::MAX as u128 {
            w as u64
        } else {
            u64::MAX
        }
    } else {
        let s: u32 = 1074 - x.grade;
        proof {
            lemma_pow2_adds(g, s as nat);
            lemma_pow2_pos(s as nat);
            let p = pow2(g);
            let q = pow2(s as nat);
            assert(2 * m * p + top == (2 * m + q) * p && 2 * top == (2 * q) * p) by (nonlinear_arith)
                requires
                    top == p * q,
            ;
            lemma_div_cancel(2 * m + q, 2 * q, p);
            assert(rounded(x@) == (2 * m + q) / (2 * q));
        }
        if s >= 55 {
            proof {
                lemma_pow2_ordered(55, s as nat);
                let q = pow2(s as nat);
                assert((2 * m + q) / (2 * q) == 0) by (nonlinear_arith)
                    requires
                        2 * m < q,
                        q > 0,
                ;
            }
            return 0;
        }
        let mut q: u128 = 1;
        let mut at: u32 = 0;
        while at < s
            invariant
                at <= s < 55,
                q == pow2(at as nat),
                pow2(55) == 0x80_0000_0000_0000,
            decreases s - at,
        {
            proof {
                lemma_pow2_unfold((at + 1) as nat);
                lemma_pow2_ordered((at + 1) as nat, 55);
            }
            q = 2 * q;
            at = at + 1;
        }
        let r: u128 = (2 * x.mant as u128 + q) / (2 * q);
        proof {
            lemma_pow2_ordered(s as nat, 55);
            assert(r <= 2 * x.mant + q) by (nonlinear_arith)
                requires
                    r == (2 * x.mant + q) / (2 * q),
                    q > 0,
            ;
        }
        r as u64
    }
}

proof fn lemma_normalized(w: nat, g: nat)
    requires
        0 < w < pow2(53),
        g <= 1074,
        w * pow2((1074 - g) as nat) < pow2(53),
    ensures
        exists|k: nat|
            k <= g && pow2(52) <= #[trigger] (w * pow2((1074 - k) as nat)) < pow2(53),
    decreases g,
{
    lemma2_to64();
    lemma2_to64_rest();
    let p = pow2((1074 - g) as nat);
    if w * p >= pow2(52) {
        assert(pow2(52) <= w * pow2((1074 - g) as nat) < pow2(53));
    } else {
        if g == 0 {
            lemma_pow2_ordered(53, 1074);
            assert(w * p >= p) by (nonlinear_arith)
                requires
                    w >= 1,
                    p >= 0,
            ;
            assert(false);
        }
        lemma_pow2_unfold((1074 - (g - 1)) as nat);
        assert(w * (2 * p) == 2 * (w * p)) by (nonlinear_arith);
        lemma_normalized(w, (g - 1) as nat);
    }
}

/// A quotient that is a whole number below two to the 53rd is a double: the
/// nearest one is the number itself.
pub proof fn whole_numbers_are_exact(num: nat, den: nat, w: nat)
    requires
        den > 0,
        num == w * den,
        0 < w < pow2(53),
    ensures
        nearest(num, den).mant * pow2(nearest(num, den).grade) == w * pow2(1074),
        normal(nearest(num, den)),
        nearest(num, den).grade <= 1074,
{
    lemma2_to64();
    lemma2_to64_rest();
    assert(w * pow2(0) == w) by (nonlinear_arith)
        requires
            pow2(0) == 1,
    ;
    lemma_normalized(w, 1074);
    let k = choose|k: nat|
        k <= 1074 && pow2(52) <= #[trigger] (w * pow2((1074 - k) as nat)) < pow2(53);
    let a = w * pow2((1074 - k) as nat);
    lemma_pow2_adds((1074 - k) as nat, k);
    assert(num * pow2(1074) * 1 == a * (den * pow2(k))) by (nonlinear_arith)
        requires
            num == w * den,
            a == w * pow2((1074 - k) as nat),
            pow2(1074) == pow2((1074 - k) as nat) * pow2(k),
    ;
    lemma_nearest(num, den, k, a, 1);
    assert(half_even(a, 1) == a);
    assert(a * pow2(k) == w * pow2(1074)) by (nonlinear_arith)
        requires
            a == w * pow2((1074 - k) as nat),
            pow2(1074) == pow2((1074 - k) as nat) * pow2(k),
    ;
}

/// A whole number is rounded to itself.
pub proof fn a_whole_number_rounds_to_itself(x: Dyadic, w: nat)
    requires
        x.mant * pow2(x.grade) == w * pow2(1074),
    ensures
        rounded(x) == w,
        shown(x, 1) == w,
{
    lemma_pow2_pos(1074);
    let t = pow2(1074);
    let v = x.mant * pow2(x.grade);
    assert(2 * x.mant * pow2(x.grade) == 2 * v) by (nonlinear_arith)
        requires
            v == x.mant * pow2(x.grade),
    ;
    assert((2 * v + t) == (2 * w + 1) * t) by (nonlinear_arith)
        requires
            v == w * t,
    ;
    lemma_div_cancel(2 * w + 1, 2, t);
    assert((2 * w + 1) / 2 == w);
    assert(v * 1 == w * t);
    assert(1 * t == t);
    lemma_half_even_cancel(w, 1, t);
    assert(half_even(w, 1) == w);
}

/// A multiple divided by what it is a multiple of needs no rounding.
pub proof fn lemma_half_even_of_multiple(q: nat, d: nat)
    requires
        d > 0,
    ensures
        half_even(q * d, d) == q,
{
    lemma_half_even_cancel(q, 1, d);
    assert(1 * d == d);
    assert(half_even(q, 1) == q);
}

/// A quotient is rounded to the nearest natural: it is off by half at most, and
/// where it is off by just that, the natural is even.
pub proof fn a_quotient_is_rounded_to_the_nearest(n: nat, d: nat)
    requires
        d > 0,
    ensures
        ({
            let q = half_even(n, d);
            let off = if q * d >= n {
                q * d - n
            } else {
                n - q * d
            };
            &&& 2 * off <= d
            &&& 2 * off == d ==> q % 2 == 0
        }),
{
    let q = n / d;
    let r = n % d;
    lemma_fundamental_div_mod(n as int, d as int);
    assert(q * d == n - r && (q + 1) * d == n - r + d) by (nonlinear_arith)
        requires
            n == d * q + r,
    ;
    assert(0 <= r < d);
}

/// The nearest double is off by half a unit of its last place at most.
pub proof fn the_nearest_double_is_near(num: nat, den: nat)
    requires
        den > 0,
    ensures
        ({
            let x = nearest(num, den);
            let unit = den * pow2(x.grade);
            let exact = num * pow2(1074);
            let off = if x.mant * unit >= exact {
                x.mant * unit - exact
            } else {
                exact - x.mant * unit
            };
            2 * off <= unit
        }),
{
    let k = grade(num * pow2(1074), den);
    lemma_pow2_pos(k);
    assert(den * pow2(k) > 0) by (nonlinear_arith)
        requires
            den > 0,
            pow2(k) > 0,
    ;
    a_quotient_is_rounded_to_the_nearest(num * pow2(1074), den * pow2(k));
}

/// What is multiplied and divided is the number that is meant, rounded once.
pub proof fn one_operation_is_rounded_once(x: Dyadic, c: nat)
    ensures
        over(x, c) == nearest(x.mant * pow2(x.grade), c * pow2(1074)),
        times(x, c) == nearest(x.mant * pow2(x.grade) * c, pow2(1074)),
{
}

proof fn lemma_grade_bounds(n: nat, d: nat)
    requires
        d > 0,
    ensures
        n < pow2(53) * (d * pow2(grade(n, d))),
        grade(n, d) > 0 ==> n >= pow2(52) * (d * pow2(grade(n, d))),
    decreases n - d,
{
    lemma2_to64();
    lemma2_to64_rest();
    if n < pow2(53) * d {
        assert(d * pow2(0) == d) by (nonlinear_arith)
            requires
                pow2(0) == 1,
        ;
    } else {
        assert(n >= 2 * d) by (nonlinear_arith)
            requires
                n >= pow2(53) * d,
                pow2(53) >= 2,
        ;
        lemma_grade_bounds(n, 2 * d);
        let k = grade(n, 2 * d);
        lemma_pow2_unfold(k + 1);
        let p = pow2(k);
        assert(d * pow2(k + 1) == (2 * d) * p) by (nonlinear_arith)
            requires
                pow2(k + 1) == 2 * p,
        ;
        if k == 0 {
            assert((2 * d) * p == 2 * d) by (nonlinear_arith)
                requires
                    p == 1,
            ;
            assert(pow2(52) * (2 * d) == pow2(53) * d) by (nonlinear_arith)
                requires
                    pow2(53) == 2 * pow2(52),
            ;
        }
    }
}

/// The nearest double has a mantissa of 53 bits, but where it is too small for
/// that.
pub proof fn the_nearest_double_is_normal(num: nat, den: nat)
    requires
        den > 0,
    ensures
        normal(nearest(num, den)),
{
    let n = num * pow2(1074);
    let k = grade(n, den);
    let d = den * pow2(k);
    lemma_pow2_pos(k);
    assert(d > 0) by (nonlinear_arith)
        requires
            den > 0,
            pow2(k) > 0,
            d == den * pow2(k),
    ;
    lemma_grade_bounds(n, den);
    lemma_half_even_bounds(n, d);
    assert(n / d < pow2(53)) by (nonlinear_arith)
        requires
            n < pow2(53) * d,
            d > 0,
    ;
    if k > 0 {
        assert(n / d >= pow2(52)) by (nonlinear_arith)
            requires
                n >= pow2(52) * d,
                d > 0,
        ;
    }
}

} // verus!
