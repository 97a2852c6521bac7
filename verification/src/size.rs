//! File sizes for people: decimal units, at most four characters.
use crate::double::{
    from_integer,
    is_less,
    less,
    nearest,
    normal,
    over,
    over_thousand,
    show,
    shown,
    Double,
    Dyadic,
};
use crate::escape::{harmless, lemma_harmless_concat};
use crate::text::{decimal, decimal_text, digit_char};
use vstd::prelude::*;

verus! {

/// The letter of the `i`th unit above a byte, each a thousand times the one
/// before.
pub open spec fn unit_letter(i: nat) -> char {
    if i == 0 {
        'k'
    } else if i == 1 {
        'M'
    } else if i == 2 {
        'G'
    } else if i == 3 {
        'T'
    } else if i == 4 {
        'P'
    } else {
        'E'
    }
}

/// A number of tenths, with one decimal.
pub open spec fn one_decimal(tenths: nat) -> Seq<char> {
    decimal(tenths / 10) + seq!['.', digit_char(tenths % 10)]
}

/// A size of `x` in the `i`th unit. The cutoffs sit where rounding would carry
/// into another digit: below 9.95 one decimal shows, below 999.5 none, and from
/// there on the next unit is taken.
pub open spec fn unit_text(x: Dyadic, i: nat) -> Seq<char>
    decreases 6 - i,
{
    if less(x, nearest(995, 100)) {
        one_decimal(shown(x, 10)).push(unit_letter(i))
    } else if less(x, nearest(1999, 2)) || i >= 5 {
        decimal(shown(x, 1)).push(unit_letter(i))
    } else {
        unit_text(over(x, 1000), i + 1)
    }
}

/// What is shown for a size: the plain count below a thousand, and above it
/// the count divided by a thousand, in double precision, once for each unit.
pub open spec fn size_text(bytes: nat) -> Seq<char> {
    if bytes < 1000 {
        decimal(bytes)
    } else {
        unit_text(over(nearest(bytes, 1), 1000), 0)
    }
}

/// The grade that a 64-bit count can have at most after `s` divisions.
spec fn top_grade(s: int) -> int {
    1085 - 19 * (s / 2) - 9 * (s % 2)
}

proof fn lemma_decimal_len(n: nat)
    ensures
        n < 10 ==> decimal(n).len() == 1,
        n < 100 ==> decimal(n).len() <= 2,
        n < 1000 ==> decimal(n).len() <= 3,
{
    reveal_with_fuel(decimal, 3);
}

proof fn lemma_cutoffs()
    ensures
        nearest(995, 100) == (Dyadic { mant: 0x13_e666_6666_6666, grade: 1025 }),
        nearest(1999, 2) == (Dyadic { mant: 0x1f_3c00_0000_0000, grade: 1031 }),
        normal(nearest(995, 100)),
        normal(nearest(1999, 2)),
{
    vstd::arithmetic::power2::lemma2_to64_rest();
    vstd::arithmetic::power2::lemma_pow2_adds(49, 1025);
    vstd::arithmetic::power2::lemma_pow2_adds(43, 1031);
    let p = vstd::arithmetic::power2::pow2(1025);
    let t = vstd::arithmetic::power2::pow2(1074);
    let a: nat = 995 * 0x2_0000_0000_0000;
    assert(995 * t * 100 == a * (100 * p)) by (nonlinear_arith)
        requires
            t == 0x2_0000_0000_0000 * p,
            a == 995 * 0x2_0000_0000_0000,
    ;
    crate::double::lemma_nearest(995, 100, 1025, a, 100);
    let q = vstd::arithmetic::power2::pow2(1031);
    let b: nat = 1999 * 0x800_0000_0000;
    assert(1999 * t * 2 == b * (2 * q)) by (nonlinear_arith)
        requires
            t == 0x800_0000_0000 * q,
            b == 1999 * 0x800_0000_0000,
    ;
    crate::double::lemma_nearest(1999, 2, 1031, b, 2);
}

/// The two cutoffs as doubles.
fn cutoffs() -> (r: (Double, Double))
    ensures
        r.0@ == nearest(995, 100),
        r.1@ == nearest(1999, 2),
        normal(r.0@),
        normal(r.1@),
        r.0.grade == 1025,
        r.1.grade == 1031,
        r.0.mant * 20 < 199 * 0x2_0000_0000_0000,
        r.1.mant == 1999 * 0x400_0000_0000,
{
    proof {
        lemma_cutoffs();
    }
    (
        Double { mant: 0x13_e666_6666_6666, grade: 1025 },
        Double { mant: 0x1f_3c00_0000_0000, grade: 1031 },
    )
}

/// Decimal units: `340`, `1.2k`, `12k`, `3.4M`. Never wider than four
/// characters, so that a column of sizes stays aligned.
pub fn human_size(bytes: u64) -> (s: String)
    ensures
        s@ == size_text(bytes as nat),
        1 <= s@.len() <= 4,
{
    if bytes < 1000 {
        proof {
            lemma_decimal_len(bytes as nat);
        }
        return decimal_text(bytes);
    }
    let (small, large) = cutoffs();
    let mut x = over_thousand(from_integer(bytes));
    let mut i: u64 = 0;
    loop
        invariant
            i <= 5,
            small@ == nearest(995, 100),
            large@ == nearest(1999, 2),
            normal(small@),
            normal(large@),
            small.grade == 1025,
            large.grade == 1031,
            small.mant * 20 < 199 * 0x2_0000_0000_0000,
            large.mant == 1999 * 0x400_0000_0000,
            bytes >= 1000,
            size_text(bytes as nat) == unit_text(x@, i as nat),
            normal(x@),
            1011 <= x.grade <= top_grade(i + 1),
            i % 2 == 0 && x.grade == top_grade(i + 1) ==> x.mant < 0x11_0000_0000_0000,
        decreases 6 - i,
    {
        if is_less(x, small) {
            proof {
                crate::double::lemma_not_above(x@, small@);
                lemma_tenths(x@, small@);
            }
            let tenths = show(x, 10);
            let mut s = decimal_text(tenths / 10);
            s.push('.');
            s.push((48 + (tenths % 10) as u8) as char);
            s.push(letter(i));
            proof {
                lemma_decimal_len((tenths / 10) as nat);
            }
            assert(s@ == one_decimal(tenths as nat).push(unit_letter(i as nat)));
            return s;
        }
        proof {
            if i == 5 {
                crate::double::lemma_grades_apart(x@, large@);
            }
        }
        if is_less(x, large) {
            proof {
                crate::double::lemma_not_above(x@, large@);
                lemma_whole(x@, large@);
            }
            let whole = show(x, 1);
            let mut s = decimal_text(whole);
            s.push(letter(i));
            proof {
                lemma_decimal_len(whole as nat);
            }
            return s;
        }
        proof {
            crate::double::lemma_not_below(x@, large@);
        }
        x = over_thousand(x);
        i += 1;
    }
}

/// The letter of the `i`th unit above a byte.
fn letter(i: u64) -> (c: char)
    ensures
        c == unit_letter(i as nat),
{
    if i == 0 {
        'k'
    } else if i == 1 {
        'M'
    } else if i == 2 {
        'G'
    } else if i == 3 {
        'T'
    } else if i == 4 {
        'P'
    } else {
        'E'
    }
}

proof fn lemma_decimal_is_harmless(n: nat)
    ensures
        harmless(decimal(n)),
    decreases n,
{
    if n >= 10 {
        lemma_decimal_is_harmless(n / 10);
        lemma_harmless_concat(decimal(n / 10), seq![digit_char(n % 10)]);
        assert(decimal(n) =~= decimal(n / 10) + seq![digit_char(n % 10)]);
    }
}

proof fn lemma_unit_text_is_harmless(x: Dyadic, i: nat)
    ensures
        harmless(unit_text(x, i)),
    decreases 6 - i,
{
    let unit = seq![unit_letter(i)];
    if less(x, nearest(995, 100)) {
        let tenths = shown(x, 10);
        let point = seq!['.', digit_char(tenths % 10)];
        lemma_decimal_is_harmless(tenths / 10);
        lemma_harmless_concat(decimal(tenths / 10), point);
        lemma_harmless_concat(one_decimal(tenths), unit);
        assert(unit_text(x, i) =~= one_decimal(tenths) + unit);
    } else if less(x, nearest(1999, 2)) || i >= 5 {
        lemma_decimal_is_harmless(shown(x, 1));
        lemma_harmless_concat(decimal(shown(x, 1)), unit);
        assert(unit_text(x, i) =~= decimal(shown(x, 1)) + unit);
    } else {
        lemma_unit_text_is_harmless(over(x, 1000), i + 1);
    }
}

/// What is shown for a size holds no control character.
pub proof fn a_shown_size_is_harmless(bytes: nat)
    ensures
        harmless(size_text(bytes)),
{
    if bytes < 1000 {
        lemma_decimal_is_harmless(bytes);
    } else {
        lemma_unit_text_is_harmless(over(nearest(bytes, 1), 1000), 0);
    }
}

proof fn lemma_tenths(x: Dyadic, small: Dyadic)
    requires
        less(x, small),
        small.grade == 1025,
        small.mant * 20 < 199 * 0x2_0000_0000_0000,
    ensures
        shown(x, 10) <= 99,
{
    let p = vstd::arithmetic::power2::pow2(1025);
    let t = vstd::arithmetic::power2::pow2(1074);
    vstd::arithmetic::power2::lemma2_to64_rest();
    vstd::arithmetic::power2::lemma_pow2_adds(49, 1025);
    vstd::arithmetic::power2::lemma_pow2_pos(1025);
    let v = x.mant * vstd::arithmetic::power2::pow2(x.grade);
    let m = small.mant;
    assert(2 * (v * 10) < 199 * t) by (nonlinear_arith)
        requires
            v < m * p,
            m * 20 < 199 * 0x2_0000_0000_0000,
            t == 0x2_0000_0000_0000 * p,
            p > 0,
    ;
    crate::double::lemma_half_even_below(v * 10, t, 99);
}

proof fn lemma_whole(x: Dyadic, large: Dyadic)
    requires
        less(x, large),
        large.grade == 1031,
        large.mant == 1999 * 0x400_0000_0000,
    ensures
        shown(x, 1) <= 999,
{
    let p = vstd::arithmetic::power2::pow2(1031);
    let t = vstd::arithmetic::power2::pow2(1074);
    vstd::arithmetic::power2::lemma2_to64_rest();
    vstd::arithmetic::power2::lemma_pow2_adds(43, 1031);
    vstd::arithmetic::power2::lemma_pow2_pos(1031);
    let v = x.mant * vstd::arithmetic::power2::pow2(x.grade);
    assert(2 * (v * 1) < 1999 * t) by (nonlinear_arith)
        requires
            v < 1999 * 0x400_0000_0000 * p,
            t == 0x800_0000_0000 * p,
            p > 0,
    ;
    crate::double::lemma_half_even_below(v * 1, t, 999);
}

/// Where the whole number `w` stands to the two cutoffs.
proof fn lemma_whole_and_cutoffs(x: Dyadic, w: nat)
    requires
        x.mant * vstd::arithmetic::power2::pow2(x.grade) == w * vstd::arithmetic::power2::pow2(
            1074,
        ),
    ensures
        less(x, nearest(995, 100)) <==> w <= 9,
        less(x, nearest(1999, 2)) <==> w <= 999,
        shown(x, 10) == 10 * w,
        shown(x, 1) == w,
{
    lemma_cutoffs();
    vstd::arithmetic::power2::lemma2_to64_rest();
    vstd::arithmetic::power2::lemma_pow2_adds(49, 1025);
    vstd::arithmetic::power2::lemma_pow2_adds(43, 1031);
    vstd::arithmetic::power2::lemma_pow2_pos(1025);
    vstd::arithmetic::power2::lemma_pow2_pos(1031);
    vstd::arithmetic::power2::lemma_pow2_pos(1074);
    let p = vstd::arithmetic::power2::pow2(1025);
    let q = vstd::arithmetic::power2::pow2(1031);
    let t = vstd::arithmetic::power2::pow2(1074);
    let v = w * t;
    let small: nat = 0x13_e666_6666_6666;
    let large: nat = 0x1f_3c00_0000_0000;
    assert(v < small * p <==> w <= 9) by (nonlinear_arith)
        requires
            v == w * t,
            t == 0x2_0000_0000_0000 * p,
            p > 0,
            small == 0x13_e666_6666_6666,
    ;
    assert(v < large * q <==> w <= 999) by (nonlinear_arith)
        requires
            v == w * t,
            t == 0x800_0000_0000 * q,
            q > 0,
            large == 0x1f_3c00_0000_0000,
    ;
    crate::double::a_whole_number_rounds_to_itself(x, w);
    assert(v * 10 == (10 * w) * t) by (nonlinear_arith)
        requires
            v == w * t,
    ;
    crate::double::lemma_half_even_of_multiple(10 * w, t);
}

proof fn lemma_whole_units(x: Dyadic, i: nat, w: nat, j: nat, v: nat)
    requires
        x.mant * vstd::arithmetic::power2::pow2(x.grade) == v * vstd::arithmetic::power2::pow2(
            1074,
        ),
        v == w * thousands(j),
        1 <= w <= 999,
        i + j <= 5,
        v < 0x20_0000_0000_0000,
    ensures
        unit_text(x, i) == (if w <= 9 {
            decimal(w) + seq!['.', '0']
        } else {
            decimal(w)
        }).push(unit_letter(i + j)),
    decreases j,
{
    lemma_whole_and_cutoffs(x, v);
    if j == 0 {
        assert(w * thousands(0) == w) by (nonlinear_arith)
            requires
                thousands(0) == 1,
        ;
        assert((10 * w) / 10 == w && (10 * w) % 10 == 0);
        assert(unit_text(x, i) =~= (if w <= 9 {
            decimal(w) + seq!['.', '0']
        } else {
            decimal(w)
        }).push(unit_letter(i)));
    } else {
        let less_by_one = (j - 1) as nat;
        let u = w * thousands(less_by_one);
        lemma_thousands_pos(less_by_one);
        assert(v == 1000 * u && u >= 1) by (nonlinear_arith)
            requires
                v == w * (1000 * thousands(less_by_one)),
                u == w * thousands(less_by_one),
                w >= 1,
                thousands(less_by_one) >= 1,
        ;
        vstd::arithmetic::power2::lemma2_to64_rest();
        vstd::arithmetic::power2::lemma_pow2_pos(1074);
        let t = vstd::arithmetic::power2::pow2(1074);
        let num = x.mant * vstd::arithmetic::power2::pow2(x.grade);
        assert(num == u * (1000 * t)) by (nonlinear_arith)
            requires
                num == v * t,
                v == 1000 * u,
        ;
        crate::double::whole_numbers_are_exact(num, 1000 * t, u);
        lemma_whole_units(over(x, 1000), i + 1, w, less_by_one, u);
    }
}

/// So many thousands of thousands.
pub open spec fn thousands(j: nat) -> nat
    decreases j,
{
    if j == 0 {
        1
    } else {
        1000 * thousands((j - 1) as nat)
    }
}

proof fn lemma_thousands_pos(j: nat)
    ensures
        thousands(j) >= 1,
    decreases j,
{
    if j > 0 {
        lemma_thousands_pos((j - 1) as nat);
    }
}

/// Sizes are in decimal units: below a thousand a size is its number of bytes,
/// and a whole number of kilobytes, megabytes, gigabytes, terabytes or petabytes,
/// from one to 999 of them, is that number and the letter of the unit, with one
/// decimal where the number has one digit. That holds as far as the bytes are
/// exact in double precision.
pub proof fn whole_units_show_as_they_are(w: nat)
    requires
        1 <= w <= 999,
    ensures
        ({
            let number = if w <= 9 {
                decimal(w) + seq!['.', '0']
            } else {
                decimal(w)
            };
            &&& size_text(w) == decimal(w)
            &&& size_text(0) == decimal(0)
            &&& size_text(w * 1000) == number.push('k')
            &&& size_text(w * 1_000_000) == number.push('M')
            &&& size_text(w * 1_000_000_000) == number.push('G')
            &&& size_text(w * 1_000_000_000_000) == number.push('T')
            &&& w <= 9 ==> size_text(w * 1_000_000_000_000_000) == number.push('P')
        }),
{
    reveal_with_fuel(thousands, 6);
    lemma_size_of_whole_units(w, 1);
    lemma_size_of_whole_units(w, 2);
    lemma_size_of_whole_units(w, 3);
    lemma_size_of_whole_units(w, 4);
    if w <= 9 {
        lemma_size_of_whole_units(w, 5);
    }
}

proof fn lemma_size_of_whole_units(w: nat, j: nat)
    requires
        1 <= w <= 999,
        1 <= j <= 5,
        w * thousands(j) < 0x20_0000_0000_0000,
    ensures
        size_text(w * thousands(j)) == (if w <= 9 {
            decimal(w) + seq!['.', '0']
        } else {
            decimal(w)
        }).push(unit_letter((j - 1) as nat)),
{
    let bytes = w * thousands(j);
    let rest = (j - 1) as nat;
    let u = w * thousands(rest);
    lemma_thousands_pos(rest);
    vstd::arithmetic::power2::lemma2_to64_rest();
    vstd::arithmetic::power2::lemma_pow2_pos(1074);
    let t = vstd::arithmetic::power2::pow2(1074);
    assert(bytes == 1000 * u && u >= 1) by (nonlinear_arith)
        requires
            bytes == w * (1000 * thousands(rest)),
            u == w * thousands(rest),
            w >= 1,
            thousands(rest) >= 1,
    ;
    crate::double::whole_numbers_are_exact(bytes, 1, bytes);
    let x = nearest(bytes, 1);
    let num = x.mant * vstd::arithmetic::power2::pow2(x.grade);
    assert(num == u * (1000 * t)) by (nonlinear_arith)
        requires
            num == bytes * t,
            bytes == 1000 * u,
    ;
    crate::double::whole_numbers_are_exact(num, 1000 * t, u);
    lemma_whole_units(over(x, 1000), 0, w, rest, u);
}

/// The units above a byte are kilo, mega, giga, tera, peta and exa, in this order.
pub proof fn the_letters_of_the_units()
    ensures
        unit_letter(0) == 'k',
        unit_letter(1) == 'M',
        unit_letter(2) == 'G',
        unit_letter(3) == 'T',
        unit_letter(4) == 'P',
        unit_letter(5) == 'E',
{
}

/// A thousandth of a number of bytes, in double precision, is off by next to
/// nothing: `v` stands for it, in parts of `t`.
proof fn lemma_thousandth(bytes: nat, v: nat, t: nat)
    requires
        1000 <= bytes < 1_000_000,
        t == vstd::arithmetic::power2::pow2(1074),
        ({
            let x = over(nearest(bytes, 1), 1000);
            v == x.mant * vstd::arithmetic::power2::pow2(x.grade)
        }),
    ensures
        t > 0,
        0x1_0000_0000 * (1000 * v) <= (0x1_0000_0000 * bytes + 1) * t,
        0x1_0000_0000 * (1000 * v) >= (0x1_0000_0000 * bytes - 1) * t,
{
    vstd::arithmetic::power2::lemma2_to64_rest();
    vstd::arithmetic::power2::lemma_pow2_pos(1074);
    crate::double::whole_numbers_are_exact(bytes, 1, bytes);
    let y = nearest(bytes, 1);
    let num = y.mant * vstd::arithmetic::power2::pow2(y.grade);
    assert(num == bytes * t);
    let x = over(y, 1000);
    let p = vstd::arithmetic::power2::pow2(x.grade);
    let m = x.mant;
    crate::double::the_nearest_double_is_near(num, 1000 * t);
    crate::double::the_nearest_double_is_normal(num, 1000 * t);
    let unit = (1000 * t) * p;
    let near = m * unit;
    let exact = num * t;
    assert(near == (1000 * v) * t && exact == (bytes * t) * t && unit == (1000 * p) * t)
        by (nonlinear_arith)
        requires
            unit == (1000 * t) * p,
            near == m * unit,
            v == m * p,
            exact == num * t,
            num == bytes * t,
    ;
    let e = 1000 * v - bytes * t;
    assert(-1000 * p <= 2 * e <= 1000 * p) by (nonlinear_arith)
        requires
            t > 0,
            near == (1000 * v) * t,
            exact == (bytes * t) * t,
            unit == (1000 * p) * t,
            e == 1000 * v - bytes * t,
            2 * (near - exact) <= unit,
            2 * (exact - near) <= unit,
    ;
    assert(0x200_0000_0000 * p <= t) by {
        if x.grade > 0 {
            vstd::arithmetic::power2::lemma_pow2_pos(x.grade);
            assert(0x200_0000_0000 * p <= t) by (nonlinear_arith)
                requires
                    m >= 0x10_0000_0000_0000,
                    v == m * p,
                    1000 * v <= bytes * t + 500 * p,
                    bytes < 1_000_000,
                    p > 0,
                    t > 0,
            ;
        } else {
            vstd::arithmetic::power2::lemma2_to64();
            vstd::arithmetic::power2::lemma_pow2_strictly_increases(41, 1074);
        }
    }
    assert(0x1_0000_0000 * (1000 * v) <= (0x1_0000_0000 * bytes + 1) * t && 0x1_0000_0000 * (1000
        * v) >= (0x1_0000_0000 * bytes - 1) * t) by (nonlinear_arith)
        requires
            1000 * v - bytes * t == e,
            -1000 * p <= 2 * e <= 1000 * p,
            0x200_0000_0000 * p <= t,
            p >= 0,
            t > 0,
    ;
}

/// Sizes below a megabyte are in kilobytes, rounded to the nearest: to one decimal
/// below 9.95 kilobytes, where what is shown is off by fifty bytes at most, and to
/// a whole number from there on, where it is off by five hundred at most.
pub proof fn kilobytes_are_rounded_to_the_nearest(bytes: nat)
    requires
        1000 <= bytes < 999_500,
        bytes != 9950,
    ensures
        bytes < 9950 ==> exists|tenths: nat|
            #[trigger] one_decimal(tenths).push('k') == size_text(bytes) && -50 <= 100 * tenths
                - bytes <= 50,
        bytes > 9950 ==> exists|whole: nat|
            #[trigger] decimal(whole).push('k') == size_text(bytes) && -500 <= 1000 * whole - bytes
                <= 500,
{
    let t = vstd::arithmetic::power2::pow2(1074);
    let x = over(nearest(bytes, 1), 1000);
    let v = x.mant * vstd::arithmetic::power2::pow2(x.grade);
    lemma_thousandth(bytes, v, t);
    lemma_cutoffs();
    vstd::arithmetic::power2::lemma2_to64_rest();
    vstd::arithmetic::power2::lemma_pow2_adds(49, 1025);
    vstd::arithmetic::power2::lemma_pow2_adds(43, 1031);
    vstd::arithmetic::power2::lemma_pow2_pos(1025);
    vstd::arithmetic::power2::lemma_pow2_pos(1031);
    let p = vstd::arithmetic::power2::pow2(1025);
    let q = vstd::arithmetic::power2::pow2(1031);
    let small: nat = 0x13_e666_6666_6666;
    let large: nat = 0x1f_3c00_0000_0000;
    assert(v < small * p <==> bytes < 9950) by (nonlinear_arith)
        requires
            0x1_0000_0000 * (1000 * v) <= (0x1_0000_0000 * bytes + 1) * t,
            0x1_0000_0000 * (1000 * v) >= (0x1_0000_0000 * bytes - 1) * t,
            t == 0x2_0000_0000_0000 * p,
            p > 0,
            bytes != 9950,
            small == 0x13_e666_6666_6666,
    ;
    assert(v < large * q) by (nonlinear_arith)
        requires
            0x1_0000_0000 * (1000 * v) <= (0x1_0000_0000 * bytes + 1) * t,
            t == 0x800_0000_0000 * q,
            q > 0,
            bytes < 999_500,
            large == 0x1f_3c00_0000_0000,
    ;
    if bytes < 9950 {
        let tenths = shown(x, 10);
        crate::double::a_quotient_is_rounded_to_the_nearest(v * 10, t);
        assert(-50 <= 100 * tenths - bytes <= 50) by (nonlinear_arith)
            requires
                0x1_0000_0000 * (1000 * v) <= (0x1_0000_0000 * bytes + 1) * t,
                0x1_0000_0000 * (1000 * v) >= (0x1_0000_0000 * bytes - 1) * t,
                2 * (tenths * t - v * 10) <= t,
                2 * (v * 10 - tenths * t) <= t,
                t > 0,
        ;
        assert(one_decimal(tenths).push('k') == size_text(bytes));
    } else {
        let whole = shown(x, 1);
        crate::double::a_quotient_is_rounded_to_the_nearest(v * 1, t);
        assert(-500 <= 1000 * whole - bytes <= 500) by (nonlinear_arith)
            requires
                0x1_0000_0000 * (1000 * v) <= (0x1_0000_0000 * bytes + 1) * t,
                0x1_0000_0000 * (1000 * v) >= (0x1_0000_0000 * bytes - 1) * t,
                2 * (whole * t - v) <= t,
                2 * (v - whole * t) <= t,
                t > 0,
        ;
        assert(decimal(whole).push('k') == size_text(bytes));
    }
}

} // verus!
