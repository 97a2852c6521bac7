//! The poll interval of follow mode, as it is written on the command line.
use crate::double::{nearest, normal, overflows, round, rounded, scale, times, Double, Dyadic};
use crate::numeral::{number, pow10, to_double};
use crate::text::{
    chars_of,
    digit_value,
    digits_value,
    find_from,
    first_at,
    is_digit,
    same_text,
    string_between,
    trim,
    trim_chars,
};
use vstd::prelude::*;
use vstd::string::StringExecFns;

verus! {

/// Poll interval for `--follow`, in milliseconds. Accepts `30s`, `500ms`, `1m`,
/// `1.5s`, or a bare number (= seconds). The minimum is 50ms; smaller values
/// are silently clamped. Zero, negative and non-finite values are rejected.
#[derive(Debug, Clone, Copy, PartialEq, Eq, Structural)]
pub struct FollowDuration(pub u64);

/// Whether `c` can stand in the numeral of a duration.
pub open spec fn in_numeral(c: char) -> bool {
    is_digit(c) || c == '.'
}

/// How many characters at the start of `s` belong to its numeral.
pub open spec fn numeral_len(s: Seq<char>) -> nat
    decreases s.len(),
{
    if s.len() == 0 || !in_numeral(s[0]) {
        0
    } else {
        1 + numeral_len(s.drop_first())
    }
}

/// What a numeral writes: its digits as one number, and how many of them stand
/// after the point. There must be a digit, and at most one point.
pub open spec fn numeral(s: Seq<char>) -> Option<(nat, nat)> {
    let i = first_at(s, '.');
    let whole = s.take(i);
    let decimals = if i < s.len() {
        s.skip(i + 1)
    } else {
        Seq::empty()
    };
    if whole.len() + decimals.len() == 0 || first_at(decimals, '.') < decimals.len() {
        None
    } else {
        Some((digits_value(whole + decimals), decimals.len()))
    }
}

/// How many milliseconds a unit has; seconds where none is given.
pub open spec fn unit_millis(unit: Seq<char>) -> Option<nat> {
    if unit == ""@ || unit == "s"@ {
        Some(1000)
    } else if unit == "ms"@ {
        Some(1)
    } else if unit == "m"@ {
        Some(60_000)
    } else {
        None
    }
}

/// `n` times `c` milliseconds, rounded to whole ones and kept within bounds.
pub open spec fn interval(n: Dyadic, c: nat) -> nat {
    let ms = rounded(if c == 1 {
        n
    } else {
        times(n, c)
    });
    if ms < FollowDuration::MIN {
        FollowDuration::MIN as nat
    } else if ms > u64::MAX {
        u64::MAX as nat
    } else {
        ms
    }
}

/// What a duration means, in milliseconds, or what is wrong with it. The
/// numeral is read, and multiplied by its unit, in double precision.
pub open spec fn duration_of(value: Seq<char>) -> Result<nat, Seq<char>> {
    let s = trim(value);
    let unit = s.skip(numeral_len(s) as int);
    if s.len() == 0 {
        Err("empty duration"@)
    } else {
        match numeral(s.take(numeral_len(s) as int)) {
            None => Err("invalid duration: "@ + value),
            Some((digits, decimals)) => {
                let n = nearest(digits, pow10(decimals));
                if overflows(n) {
                    Err("invalid duration: "@ + value)
                } else if unit_millis(unit) is None {
                    Err("invalid duration unit: '"@ + unit + "' (expected ms, s, or m)"@)
                } else if n.mant == 0 {
                    Err("duration must be positive"@)
                } else {
                    Ok(interval(n, unit_millis(unit)->0))
                }
            },
        }
    }
}

impl FollowDuration {
    /// Minimum permitted poll interval, in milliseconds. Enough headroom for a
    /// redraw and a tick; anything below is just busy-looping.
    pub const MIN: u64 = 50;

    /// Poll interval applied when `-f` is given without a value, in
    /// milliseconds.
    pub const DEFAULT: u64 = 250;

    /// Reads a duration.
    pub fn parse(value: &str) -> (r: Result<FollowDuration, String>)
        ensures
            match r {
                Ok(d) => duration_of(value@) == Ok::<nat, Seq<char>>(d.0 as nat),
                Err(e) => duration_of(value@) == Err::<nat, Seq<char>>(e@),
            },
            r matches Ok(d) ==> d.0 >= FollowDuration::MIN,
    {
        let value_chars = chars_of(value);
        let s = trim_chars(value_chars.as_slice());
        if s.len() == 0 {
            return Err("empty duration".to_owned());
        }
        let split = numeral_end(&s);
        let unit = string_between(s.as_slice(), split, s.len());
        assert(s@.subrange(split as int, s@.len() as int) == s@.skip(split as int));
        let n = match read_numeral(&s, split) {
            Some(n) => n,
            None => {
                let mut e = "invalid duration: ".to_owned();
                e.append(value);
                return Err(e);
            },
        };
        let c: u64 = if same_text(unit.as_str(), "") || same_text(unit.as_str(), "s") {
            1000
        } else if same_text(unit.as_str(), "ms") {
            1
        } else if same_text(unit.as_str(), "m") {
            60_000
        } else {
            let mut e = "invalid duration unit: '".to_owned();
            e.append(unit.as_str());
            e.append("' (expected ms, s, or m)");
            return Err(e);
        };
        if n.mant == 0 {
            return Err("duration must be positive".to_owned());
        }
        let ms = round(if c == 1 {
            n
        } else {
            scale(n, c)
        });
        Ok(
            FollowDuration(
                if ms < FollowDuration::MIN {
                    FollowDuration::MIN
                } else {
                    ms
                },
            ),
        )
    }
}

/// Where the numeral at the start of `s` ends.
fn numeral_end(s: &Vec<char>) -> (i: usize)
    ensures
        i == numeral_len(s@),
        i <= s@.len(),
        forall|j: int| 0 <= j < i ==> in_numeral(s@[j]),
{
    let mut i: usize = 0;
    assert(s@.skip(0) == s@);
    while i < s.len() && (('0' <= s[i] && s[i] <= '9') || s[i] == '.')
        invariant
            i <= s@.len(),
            numeral_len(s@) == i + numeral_len(s@.skip(i as int)),
            forall|j: int| 0 <= j < i ==> in_numeral(s@[j]),
        decreases s@.len() - i,
    {
        assert(s@.skip(i as int).drop_first() == s@.skip(i + 1));
        i += 1;
    }
    i
}

/// Digits written backwards have the value of the digits written forwards.
proof fn lemma_backwards(d: Seq<u8>, s: Seq<char>)
    requires
        d.len() == s.len(),
        forall|i: int| 0 <= i < d.len() ==> #[trigger] d[i] as nat == digit_value(
            s[s.len() - 1 - i],
        ),
    ensures
        number(d) == digits_value(s),
    decreases d.len(),
{
    if d.len() > 0 {
        let rest = d.drop_first();
        let front = s.drop_last();
        assert forall|i: int| 0 <= i < rest.len() implies #[trigger] rest[i] as nat == digit_value(
            front[front.len() - 1 - i],
        ) by {
            assert(rest[i] == d[i + 1]);
        }
        lemma_backwards(rest, front);
        assert(d[0] as nat == digit_value(s[s.len() - 1]));
    }
}

/// The double nearest to the numeral in the first `n` characters of `s`;
/// nothing where it is no numeral, or lies beyond the largest double.
fn read_numeral(s: &Vec<char>, n: usize) -> (x: Option<Double>)
    requires
        n <= s@.len(),
        forall|j: int| 0 <= j < n ==> in_numeral(s@[j]),
    ensures
        match numeral(s@.take(n as int)) {
            None => x is None,
            Some((digits, decimals)) => match x {
                Some(x) => x@ == nearest(digits, pow10(decimals)) && normal(x@) && !overflows(x@),
                None => overflows(nearest(digits, pow10(decimals))),
            },
        },
{
    let ghost text = s@.take(n as int);
    let chars = &s.as_slice()[0..n];
    assert(chars@ == text);
    let dot = find_from(chars, 0, '.');
    assert(text.skip(0) == text);
    let after: usize = if dot < n {
        dot + 1
    } else {
        n
    };
    let second = find_from(chars, after, '.');
    let ghost decimals = if dot < n {
        text.skip(dot + 1)
    } else {
        Seq::empty()
    };
    proof {
        crate::text::lemma_first_at(text, '.');
        assert(text.skip(after as int) == decimals);
        crate::text::lemma_first_at(decimals, '.');
    }
    if second < n || dot + (n - after) == 0 {
        return None;
    }
    let ghost all = text.take(dot as int) + decimals;
    proof {
        assert forall|j: int| 0 <= j < n && j != dot implies text[j] != '.' by {
            if j > dot {
                assert(decimals[j - after] == text[j]);
            }
        }
    }
    let mut d: Vec<u8> = Vec::new();
    let mut i: usize = n;
    while i > 0
        invariant
            i <= n,
            n == chars@.len(),
            chars@ == text,
            text.len() == n,
            dot <= n,
            after == if dot < n {
                dot + 1
            } else {
                n as int
            },
            decimals == text.skip(after as int),
            all == text.take(dot as int) + decimals,
            forall|j: int| 0 <= j < n ==> in_numeral(text[j]),
            forall|j: int| 0 <= j < n && j != dot ==> text[j] != '.',
            d@.len() == (if i <= dot {
                all.len() - i
            } else {
                n - i
            }),
            forall|j: int| 0 <= j < d@.len() ==> #[trigger] d@[j] as nat == digit_value(
                all[all.len() - 1 - j],
            ) && d@[j] < 10,
        decreases i,
    {
        i -= 1;
        let c = chars[i];
        if i != dot {
            assert(text[i as int] != '.');
            assert(in_numeral(text[i as int]));
            let digit = (c as u32 - 48) as u8;
            proof {
                let j = d@.len() as int;
                assert(all[all.len() - 1 - j] == text[i as int]);
            }
            d.push(digit);
        }
    }
    proof {
        lemma_backwards(d@, all);
    }
    to_double(d, n - after)
}

proof fn lemma_numeral_len_is(s: Seq<char>, k: int)
    requires
        0 <= k <= s.len(),
        forall|i: int| 0 <= i < k ==> in_numeral(#[trigger] s[i]),
        k < s.len() ==> !in_numeral(s[k]),
    ensures
        numeral_len(s) == k,
    decreases s.len(),
{
    if k > 0 {
        let rest = s.drop_first();
        assert(in_numeral(s[0]));
        assert forall|i: int| 0 <= i < k - 1 implies in_numeral(#[trigger] rest[i]) by {
            assert(rest[i] == s[i + 1]);
        }
        if k < s.len() {
            assert(rest[k - 1] == s[k]);
        }
        lemma_numeral_len_is(rest, k - 1);
    }
}

/// A bare number means seconds: with the unit behind it, it means the same.
pub proof fn a_bare_number_means_seconds(s: Seq<char>)
    requires
        s.len() > 0,
        forall|i: int| 0 <= i < s.len() ==> in_numeral(#[trigger] s[i]),
    ensures
        duration_of(s) matches Ok(ms) ==> duration_of(s.push('s')) == Ok::<nat, Seq<char>>(ms),
        duration_of(s.push('s')) matches Ok(ms) ==> duration_of(s) == Ok::<nat, Seq<char>>(ms),
{
    let t = s.push('s');
    assert(in_numeral(s[0]) && in_numeral(s[s.len() - 1]));
    assert(t[0] == s[0]);
    assert(trim(s) == s);
    assert(trim(t) == t);
    lemma_numeral_len_is(s, s.len() as int);
    assert forall|i: int| 0 <= i < s.len() implies in_numeral(#[trigger] t[i]) by {
        assert(t[i] == s[i]);
    }
    lemma_numeral_len_is(t, s.len() as int);
    assert(t.take(s.len() as int) =~= s);
    assert(s.take(s.len() as int) =~= s);
    reveal_strlit("");
    reveal_strlit("s");
    assert(s.skip(s.len() as int) =~= ""@);
    assert(t.skip(s.len() as int) =~= "s"@);
}

proof fn lemma_whole_interval(n: nat, c: nat)
    requires
        n > 0,
        c == 1 || c == 1000 || c == 60_000,
        n * c < 0x20_0000_0000_0000,
    ensures
        !overflows(nearest(n, 1)),
        nearest(n, 1).mant > 0,
        interval(nearest(n, 1), c) == (if n * c < 50 {
            50
        } else {
            n * c
        }),
{
    vstd::arithmetic::power2::lemma2_to64_rest();
    vstd::arithmetic::power2::lemma_pow2_pos(1074);
    let t = vstd::arithmetic::power2::pow2(1074);
    assert(0 < n <= n * c) by (nonlinear_arith)
        requires
            n > 0,
            c >= 1,
    ;
    crate::double::whole_numbers_are_exact(n, 1, n);
    let x = nearest(n, 1);
    let v = x.mant * vstd::arithmetic::power2::pow2(x.grade);
    assert(x.mant > 0) by {
        if x.mant == 0 {
            assert(0 * vstd::arithmetic::power2::pow2(x.grade) == 0);
            assert(n * t > 0) by (nonlinear_arith)
                requires
                    n > 0,
                    t > 0,
            ;
        }
    }
    if c == 1 {
        crate::double::a_whole_number_rounds_to_itself(x, n);
    } else {
        let num = v * c;
        assert(num == (n * c) * t) by (nonlinear_arith)
            requires
                num == v * c,
                v == n * t,
        ;
        crate::double::whole_numbers_are_exact(num, t, n * c);
        crate::double::a_whole_number_rounds_to_itself(times(x, c), n * c);
    }
}

/// A duration of digits and a unit is so many milliseconds, seconds or minutes,
/// and without a unit so many seconds, but never less than fifty milliseconds.
/// That holds as far as the milliseconds are exact in double precision.
pub proof fn a_duration_is_its_number_of_units(digits: Seq<char>)
    requires
        digits.len() > 0,
        forall|i: int| 0 <= i < digits.len() ==> '0' <= #[trigger] digits[i] <= '9',
        digits_value(digits) > 0,
    ensures
        ({
            let n = digits_value(digits);
            let at_least = |ms: nat|
                Ok::<nat, Seq<char>>(
                    if ms < 50 {
                        50
                    } else {
                        ms
                    },
                );
            &&& n < 0x20_0000_0000_0000 ==> duration_of(digits + seq!['m', 's']) == at_least(n)
            &&& n * 1000 < 0x20_0000_0000_0000 ==> duration_of(digits + seq!['s']) == at_least(
                n * 1000,
            )
            &&& n * 1000 < 0x20_0000_0000_0000 ==> duration_of(digits) == at_least(n * 1000)
            &&& n * 60_000 < 0x20_0000_0000_0000 ==> duration_of(digits + seq!['m']) == at_least(
                n * 60_000,
            )
        }),
{
    reveal_strlit("");
    reveal_strlit("s");
    reveal_strlit("ms");
    reveal_strlit("m");
    assert(""@ =~= Seq::<char>::empty());
    assert("s"@ =~= seq!['s']);
    assert("ms"@ =~= seq!['m', 's']);
    assert("m"@ =~= seq!['m']);
    assert("s"@.len() != "ms"@.len());
    assert("m"@[0] != "s"@[0]);
    let n = digits_value(digits);
    lemma_digits_and_unit(digits, Seq::empty());
    lemma_digits_and_unit(digits, seq!['s']);
    lemma_digits_and_unit(digits, seq!['m', 's']);
    lemma_digits_and_unit(digits, seq!['m']);
    assert(digits + Seq::<char>::empty() =~= digits);
    assert(pow10(0) == 1);
    assert(unit_millis(Seq::empty()) == Some(1000nat));
    assert(unit_millis(seq!['s']) == Some(1000nat));
    assert(unit_millis(seq!['m', 's']) == Some(1nat));
    assert(unit_millis(seq!['m']) == Some(60_000nat));
    if n * 1 < 0x20_0000_0000_0000 {
        lemma_whole_interval(n, 1);
    }
    if n * 1000 < 0x20_0000_0000_0000 {
        lemma_whole_interval(n, 1000);
    }
    if n * 60_000 < 0x20_0000_0000_0000 {
        lemma_whole_interval(n, 60_000);
    }
}

proof fn lemma_digits_and_unit(digits: Seq<char>, unit: Seq<char>)
    requires
        digits.len() > 0,
        forall|i: int| 0 <= i < digits.len() ==> '0' <= #[trigger] digits[i] <= '9',
        unit == Seq::<char>::empty() || unit == seq!['s'] || unit == seq!['m', 's'] || unit == seq![
            'm',
        ],
    ensures
        ({
            let s = digits + unit;
            &&& trim(s) == s
            &&& s.len() > 0
            &&& numeral_len(s) == digits.len()
            &&& s.take(digits.len() as int) == digits
            &&& s.skip(digits.len() as int) == unit
            &&& numeral(digits) == Some((digits_value(digits), 0nat))
        }),
{
    let s = digits + unit;
    assert('0' <= digits[0] <= '9');
    assert('0' <= digits[digits.len() - 1] <= '9');
    assert(s[0] == digits[0]);
    assert(s.last() == if unit.len() == 0 {
        digits.last()
    } else {
        unit.last()
    });
    assert(trim(s) == s);
    assert forall|i: int| 0 <= i < digits.len() implies in_numeral(#[trigger] s[i]) by {
        assert(s[i] == digits[i]);
        assert('0' <= digits[i] <= '9');
    }
    lemma_numeral_len_is(s, digits.len() as int);
    assert(s.take(digits.len() as int) =~= digits);
    assert(s.skip(digits.len() as int) =~= unit);
    assert forall|i: int| 0 <= i < digits.len() implies digits[i] != '.' by {
        assert('0' <= digits[i] <= '9');
    }
    crate::text::lemma_first_at_is(digits, '.', digits.len() as int);
    assert(digits.take(digits.len() as int) =~= digits);
    assert(digits + Seq::<char>::empty() =~= digits);
}

/// What is no duration: nothing at all, white space, what does not begin with a
/// digit or a point once the white space around it is off, and no time at all.
pub proof fn what_is_no_duration(value: Seq<char>)
    ensures
        trim(value).len() == 0 ==> duration_of(value) is Err,
        trim(value).len() > 0 && !('0' <= trim(value)[0] <= '9') && trim(value)[0] != '.'
            ==> duration_of(value) is Err,
{
    let s = trim(value);
    if s.len() > 0 && !in_numeral(s[0]) {
        assert(s.take(0) =~= Seq::<char>::empty());
    }
}

/// No unit but milliseconds, seconds and minutes is accepted.
pub proof fn other_units_are_refused(value: Seq<char>)
    requires
        duration_of(value) is Ok,
    ensures
        ({
            let s = trim(value);
            exists|n: int|
                0 < n <= s.len() && {
                    let unit = #[trigger] s.skip(n);
                    unit.len() == 0 || unit == seq!['s'] || unit == seq!['m', 's'] || unit == seq![
                        'm',
                    ]
                } && forall|i: int| 0 <= i < n ==> '0' <= s[i] <= '9' || s[i] == '.'
        }),
{
    let s = trim(value);
    reveal_strlit("");
    reveal_strlit("s");
    reveal_strlit("ms");
    reveal_strlit("m");
    assert("s"@ =~= seq!['s']);
    assert("ms"@ =~= seq!['m', 's']);
    assert("m"@ =~= seq!['m']);
    let n = numeral_len(s) as int;
    lemma_numeral_len(s);
    if n == 0 {
        assert(s.take(0) =~= Seq::<char>::empty());
    }
    assert(unit_millis(s.skip(n)) is Some);
}

proof fn lemma_numeral_len(s: Seq<char>)
    ensures
        numeral_len(s) <= s.len(),
        forall|i: int| 0 <= i < numeral_len(s) ==> in_numeral(#[trigger] s[i]),
    decreases s.len(),
{
    if s.len() > 0 && in_numeral(s[0]) {
        let rest = s.drop_first();
        lemma_numeral_len(rest);
        assert forall|i: int| 0 <= i < numeral_len(s) implies in_numeral(#[trigger] s[i]) by {
            if i > 0 {
                assert(s[i] == rest[i - 1]);
            }
        }
    }
}

/// A poll interval is never below fifty milliseconds.
pub proof fn an_interval_is_never_too_short(value: Seq<char>)
    ensures
        duration_of(value) matches Ok(ms) ==> ms >= 50,
{
}

/// A numeral with a point has the value of all its digits, as so many tenths,
/// hundredths and so on as there are digits behind the point.
pub proof fn a_numeral_counts_its_decimals(a: Seq<char>, b: Seq<char>)
    requires
        forall|i: int| 0 <= i < a.len() ==> #[trigger] a[i] != '.',
        forall|i: int| 0 <= i < b.len() ==> #[trigger] b[i] != '.',
        a.len() + b.len() > 0,
    ensures
        numeral(a + seq!['.'] + b) == Some((digits_value(a + b), b.len())),
        a.len() > 0 ==> numeral(a) == Some((digits_value(a), 0nat)),
        numeral(seq!['.']) is None,
        numeral(Seq::empty()) is None,
{
    let s = a + seq!['.'] + b;
    assert forall|i: int| 0 <= i < a.len() implies s[i] != '.' by {
        assert(s[i] == a[i]);
    }
    crate::text::lemma_first_at_is(s, '.', a.len() as int);
    crate::text::lemma_first_at_is(b, '.', b.len() as int);
    crate::text::lemma_first_at_is(a, '.', a.len() as int);
    assert(s.take(a.len() as int) =~= a);
    assert(s.skip(a.len() as int + 1) =~= b);
    assert(a.take(a.len() as int) =~= a);
    assert(a + Seq::<char>::empty() =~= a);
    let e = Seq::<char>::empty();
    crate::text::lemma_first_at_is(e, '.', 0);
    crate::text::lemma_first_at_is(seq!['.'], '.', 0);
    assert(seq!['.'].skip(1) =~= e);
}

} // verus!
