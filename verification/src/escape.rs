//! Control characters in file names, as escapes, so that a name cannot drive
//! the terminal.
use crate::text::{chars_of, digit_char};
use vstd::prelude::*;

verus! {

/// A control character: Unicode's category `Cc`.
pub open spec fn control(c: char) -> bool {
    c as u32 <= 0x1f || 0x7f <= c as u32 <= 0x9f
}

/// Whether `c` is a control character.
pub fn is_control(c: char) -> (r: bool)
    ensures
        r == control(c),
{
    let u = c as u32;
    u <= 0x1f || (0x7f <= u && u <= 0x9f)
}

/// The character of the hexadecimal digit `d`.
pub open spec fn hex_char(d: int) -> char {
    if d < 10 {
        digit_char(d as nat)
    } else {
        ((87 + d) as u8) as char
    }
}

/// The hexadecimal notation of a number below 256, without leading zeros.
pub open spec fn hex(n: int) -> Seq<char> {
    if n < 16 {
        seq![hex_char(n)]
    } else {
        seq![hex_char(n / 16), hex_char(n % 16)]
    }
}

/// A control character as Rust writes it in a literal.
pub open spec fn control_escape(c: char) -> Seq<char> {
    if c == '\0' {
        seq!['\\', '0']
    } else if c == '\t' {
        seq!['\\', 't']
    } else if c == '\n' {
        seq!['\\', 'n']
    } else if c == '\r' {
        seq!['\\', 'r']
    } else {
        seq!['\\', 'u', '{'] + hex(c as u32 as int) + seq!['}']
    }
}

/// The text with its control characters as escapes.
pub open spec fn escaped(s: Seq<char>) -> Seq<char>
    decreases s.len(),
{
    if s.len() == 0 {
        Seq::empty()
    } else {
        escaped(s.drop_last()) + if control(s.last()) {
            control_escape(s.last())
        } else {
            seq![s.last()]
        }
    }
}

fn hex_digit(d: u8) -> (c: char)
    requires
        d < 16,
    ensures
        c == hex_char(d as int),
{
    if d < 10 {
        (48 + d) as char
    } else {
        (87 + d) as char
    }
}

fn push_escape(out: &mut String, c: char)
    requires
        control(c),
    ensures
        final(out)@ == old(out)@ + control_escape(c),
{
    if c == '\0' {
        out.push('\\');
        out.push('0');
    } else if c == '\t' {
        out.push('\\');
        out.push('t');
    } else if c == '\n' {
        out.push('\\');
        out.push('n');
    } else if c == '\r' {
        out.push('\\');
        out.push('r');
    } else {
        let u = c as u8;
        out.push('\\');
        out.push('u');
        out.push('{');
        if u >= 16 {
            out.push(hex_digit(u / 16));
        }
        out.push(hex_digit(u % 16));
        out.push('}');
    }
    assert(out@ =~= old(out)@ + control_escape(c));
}

/// The text with its control characters as Rust escapes (`\u{1b}`, `\n`).
pub fn escape_controls(s: &str) -> (out: String)
    ensures
        out@ == escaped(s@),
{
    let chars = chars_of(s);
    let mut out = String::new();
    for i in 0..chars.len()
        invariant
            chars@ == s@,
            out@ == escaped(s@.take(i as int)),
    {
        assert(s@.take(i + 1).drop_last() =~= s@.take(i as int));
        let c = chars[i];
        if is_control(c) {
            push_escape(&mut out, c);
        } else {
            out.push(c);
        }
        assert(out@ =~= escaped(s@.take(i + 1)));
    }
    assert(s@.take(s@.len() as int) =~= s@);
    out
}

/// Whether a text holds no control character.
pub open spec fn harmless(s: Seq<char>) -> bool {
    forall|i: int| 0 <= i < s.len() ==> !control(#[trigger] s[i])
}

/// An escaped text holds no control character.
pub proof fn an_escaped_text_is_harmless(s: Seq<char>)
    ensures
        harmless(escaped(s)),
    decreases s.len(),
{
    if s.len() > 0 {
        an_escaped_text_is_harmless(s.drop_last());
        let before = escaped(s.drop_last());
        let c = s.last();
        if control(c) {
            let e = control_escape(c);
            assert(harmless(e)) by {
                let n = c as u32 as int;
                assert(0 <= n <= 0x9f);
                assert(0 <= n / 16 < 16 && 0 <= n % 16 < 16);
            }
            lemma_harmless_concat(before, e);
        } else {
            lemma_harmless_concat(before, seq![c]);
        }
    }
}

/// A text without control characters is left as it is.
pub proof fn a_harmless_text_is_left_alone(s: Seq<char>)
    requires
        harmless(s),
    ensures
        escaped(s) == s,
    decreases s.len(),
{
    if s.len() > 0 {
        assert(harmless(s.drop_last())) by {
            assert forall|i: int| 0 <= i < s.drop_last().len() implies !control(
                #[trigger] s.drop_last()[i],
            ) by {
                assert(s.drop_last()[i] == s[i]);
            }
        }
        a_harmless_text_is_left_alone(s.drop_last());
        assert(!control(s[s.len() - 1]));
        assert(s.drop_last() + seq![s.last()] =~= s);
    }
}

/// Two texts without control characters make one.
pub proof fn lemma_harmless_concat(a: Seq<char>, b: Seq<char>)
    requires
        harmless(a),
        harmless(b),
    ensures
        harmless(a + b),
{
    assert forall|i: int| 0 <= i < (a + b).len() implies !control(#[trigger] (a + b)[i]) by {
        if i < a.len() {
            assert(!control(a[i]));
        } else {
            assert(!control(b[i - a.len()]));
        }
    }
}

/// The control characters are those before the space, and the ones from the
/// delete character to the last of the second block.
pub proof fn what_control_characters_are(c: char)
    ensures
        control(c) <==> c < ' ' || '\x7f' <= c < '\u{a0}',
{
}

/// The hexadecimal notation of a number below 256: two digits for sixteens and
/// ones, but no zero before a single one, with lower case letters for ten and up.
pub proof fn the_hexadecimal_notation(n: int)
    requires
        0 <= n < 256,
    ensures
        ({
            let digit = |d: int|
                if d < 10 {
                    '0' as u32 + d
                } else {
                    'a' as u32 + (d - 10)
                };
            &&& hex(n).len() == (if n < 16 {
                1int
            } else {
                2
            })
            &&& hex(n).last() as u32 == digit(n % 16)
            &&& n >= 16 ==> hex(n)[0] as u32 == digit(n / 16)
        }),
{
    assert(0 <= n / 16 < 16 && 0 <= n % 16 < 16);
}

/// Every character of a text stands in the escaped one, in its place: as it is
/// where it is no control character; as backslash and letter where it is a zero,
/// a tab, a newline or a carriage return; and as `\u{..}` with its number in
/// hexadecimal where it is any other control character. `pieces` are what becomes
/// of each character.
pub proof fn each_character_is_escaped_in_its_place(s: Seq<char>, pieces: Seq<Seq<char>>)
    requires
        pieces.len() == s.len(),
        forall|i: int|
            #![trigger pieces[i]]
            0 <= i < s.len() ==> ({
                let c = s[i];
                let is_control = c < ' ' || '\x7f' <= c < '\u{a0}';
                if !is_control {
                    pieces[i] == seq![c]
                } else if c == '\0' {
                    pieces[i] == seq!['\\', '0']
                } else if c == '\t' {
                    pieces[i] == seq!['\\', 't']
                } else if c == '\n' {
                    pieces[i] == seq!['\\', 'n']
                } else if c == '\r' {
                    pieces[i] == seq!['\\', 'r']
                } else {
                    pieces[i] == seq!['\\', 'u', '{'] + hex(c as u32 as int) + seq!['}']
                }
            }),
    ensures
        escaped(s) == pieces.flatten(),
    decreases s.len(),
{
    if s.len() > 0 {
        let front = pieces.drop_last();
        assert forall|i: int| 0 <= i < s.drop_last().len() implies front[i] == pieces[i]
            && s.drop_last()[i] == s[i] by {}
        each_character_is_escaped_in_its_place(s.drop_last(), front);
        let c = s[s.len() - 1];
        let last = pieces[s.len() - 1];
        what_control_characters_are(c);
        assert(c == s.last());
        assert(last == if control(c) {
            control_escape(c)
        } else {
            seq![c]
        });
        assert(front.push(last) =~= pieces);
        front.lemma_flatten_push(last);
    }
}

} // verus!
