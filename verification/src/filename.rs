//! Which file names the editor opens without being told to.
use crate::text::{char_texts, chars_of, first_at, is_digit, is_letter, lemma_first_at, slice_chars, split, split_chars};
use vstd::prelude::*;

verus! {

/// An ASCII letter or digit.
pub open spec fn alphanumeric(c: char) -> bool {
    is_letter(c) || is_digit(c)
}

/// A character of the first part of a name.
pub open spec fn stem_char(c: char) -> bool {
    alphanumeric(c) || c == '_' || c == '-' || c == '+'
}

/// The first part of a name: not empty, of letters, digits, `_`, `-` and `+`.
pub open spec fn plain_stem(s: Seq<char>) -> bool {
    s.len() > 0 && forall|i: int| 0 <= i < s.len() ==> stem_char(#[trigger] s[i])
}

/// A further part of a name: not empty, of letters and digits.
pub open spec fn plain_extension(s: Seq<char>) -> bool {
    s.len() > 0 && forall|i: int| 0 <= i < s.len() ==> alphanumeric(#[trigger] s[i])
}

/// The parts of a name between its dots, after one dot at the start.
pub open spec fn name_parts(name: Seq<char>) -> Seq<Seq<char>> {
    split(
        if name.len() > 0 && name[0] == '.' {
            name.skip(1)
        } else {
            name
        },
        '.',
    )
}

/// A name that is safe: it does not start with a hyphen or with two dots, it
/// has a letter, and its parts are plain.
pub open spec fn safe_filename(name: Seq<char>) -> bool {
    let parts = name_parts(name);
    &&& !(name.len() > 0 && name[0] == '-')
    &&& !(name.len() > 1 && name[0] == '.' && name[1] == '.')
    &&& exists|i: int| 0 <= i < name.len() && is_letter(#[trigger] name[i])
    &&& plain_stem(parts[0])
    &&& forall|k: int| 1 <= k < parts.len() ==> plain_extension(#[trigger] parts[k])
}

fn is_alphanumeric(c: char) -> (r: bool)
    ensures
        r == alphanumeric(c),
{
    is_ascii_letter(c) || ('0' <= c && c <= '9')
}

fn is_ascii_letter(c: char) -> (r: bool)
    ensures
        r == is_letter(c),
{
    ('A' <= c && c <= 'Z') || ('a' <= c && c <= 'z')
}

fn has_letter(s: &Vec<char>) -> (r: bool)
    ensures
        r == exists|i: int| 0 <= i < s@.len() && is_letter(#[trigger] s@[i]),
{
    for i in 0..s.len()
        invariant
            forall|j: int| 0 <= j < i ==> !is_letter(#[trigger] s@[j]),
    {
        if is_ascii_letter(s[i]) {
            return true;
        }
    }
    false
}

fn is_plain_stem(s: &Vec<char>) -> (r: bool)
    ensures
        r == plain_stem(s@),
{
    for i in 0..s.len()
        invariant
            forall|j: int| 0 <= j < i ==> stem_char(#[trigger] s@[j]),
    {
        let c = s[i];
        if !(is_alphanumeric(c) || c == '_' || c == '-' || c == '+') {
            assert(!stem_char(s@[i as int]));
            return false;
        }
    }
    s.len() > 0
}

fn is_plain_extension(s: &Vec<char>) -> (r: bool)
    ensures
        r == plain_extension(s@),
{
    for i in 0..s.len()
        invariant
            forall|j: int| 0 <= j < i ==> alphanumeric(#[trigger] s@[j]),
    {
        if !is_alphanumeric(s[i]) {
            assert(!alphanumeric(s@[i as int]));
            return false;
        }
    }
    s.len() > 0
}

/// Whether a name is safe. A name must:
/// - not be empty, `.` or `..`;
/// - have at most one dot at the start (`.gitignore`, not `..tilde`);
/// - not start with `-`, which reads as a flag;
/// - have an ASCII letter (`123` is odd);
/// - be of ASCII letters, digits, `_`, `+` and `-` before the first dot, and of
///   letters and digits in each part after one (`foo.tar.gz`, not `foo.b-c~d`).
pub fn is_safe_filename(name: &str) -> (r: bool)
    ensures
        r == safe_filename(name@),
{
    let chars = chars_of(name);
    if !has_letter(&chars) {
        return false;
    }
    if chars[0] == '-' {
        return false;
    }
    if chars.len() > 1 && chars[0] == '.' && chars[1] == '.' {
        return false;
    }
    let from: usize = if chars[0] == '.' {
        1
    } else {
        0
    };
    let body = slice_chars(chars.as_slice(), from, chars.len());
    assert(body@ == name@.skip(from as int));
    assert(name@.skip(0) == name@);
    let parts = split_chars(body.as_slice(), '.');
    let ghost texts = name_parts(name@);
    assert(char_texts(parts@) == texts);
    proof {
        lemma_split_len(body@, '.');
    }
    assert(parts@[0]@ == texts[0]);
    if !is_plain_stem(&parts[0]) {
        return false;
    }
    for k in 1..parts.len()
        invariant
            char_texts(parts@) == texts,
            texts == name_parts(name@),
            forall|j: int| 1 <= j < k ==> plain_extension(#[trigger] texts[j]),
    {
        assert(parts@[k as int]@ == texts[k as int]);
        if !is_plain_extension(&parts[k]) {
            return false;
        }
    }
    true
}

proof fn lemma_split_len(s: Seq<char>, sep: char)
    ensures
        split(s, sep).len() > 0,
{
}

proof fn lemma_in_a_piece(s: Seq<char>, sep: char, i: int)
    requires
        0 <= i < s.len(),
    ensures
        s[i] == sep || exists|k: int, j: int|
            0 <= k < split(s, sep).len() && 0 <= j < split(s, sep)[k].len()
                && #[trigger] split(s, sep)[k][j] == s[i],
    decreases s.len(),
{
    lemma_first_at(s, sep);
    let at = first_at(s, sep);
    let pieces = split(s, sep);
    if at == s.len() {
        assert(pieces[0][i] == s[i]);
    } else if i < at {
        assert(pieces[0][i] == s[i]);
    } else if i > at {
        let rest = s.skip(at + 1);
        lemma_in_a_piece(rest, sep, i - at - 1);
        assert(rest[i - at - 1] == s[i]);
        if s[i] != sep {
            let (k, j) = choose|k: int, j: int|
                0 <= k < split(rest, sep).len() && 0 <= j < split(rest, sep)[k].len()
                    && #[trigger] split(rest, sep)[k][j] == rest[i - at - 1];
            assert(pieces[k + 1] == split(rest, sep)[k]);
            assert(pieces[k + 1][j] == s[i]);
        }
    }
}

/// A safe name is of ASCII letters, digits, `_`, `-`, `+` and dots: it holds no
/// separator of directories, no space, no control character, and nothing that
/// a shell reads.
pub proof fn a_safe_name_is_of_plain_ascii(name: Seq<char>, i: int)
    requires
        safe_filename(name),
        0 <= i < name.len(),
    ensures
        stem_char(name[i]) || name[i] == '.',
        (name[i] as u32) < 128,
{
    let body = if name[0] == '.' {
        name.skip(1)
    } else {
        name
    };
    let at = if name[0] == '.' {
        i - 1
    } else {
        i
    };
    if at >= 0 {
        lemma_in_a_piece(body, '.', at);
        if body[at] != '.' {
            let parts = name_parts(name);
            let (k, j) = choose|k: int, j: int|
                0 <= k < split(body, '.').len() && 0 <= j < split(body, '.')[k].len()
                    && #[trigger] split(body, '.')[k][j] == body[at];
            if k > 0 {
                assert(plain_extension(parts[k]));
            }
            assert(stem_char(parts[k][j]));
        }
        assert(body[at] == name[i]);
    }
}

/// A safe name names a file: it is not empty, and neither this directory nor
/// the one above.
pub proof fn a_safe_name_names_a_file(name: Seq<char>)
    requires
        safe_filename(name),
    ensures
        name.len() > 0,
        name != seq!['.'],
        name != seq!['.', '.'],
{
}

/// A name is safe exactly where its parts between the dots are: with or without a
/// dot at its start, the first part is of ASCII letters, digits, `_`, `-` and `+`,
/// each further part of letters and digits, none is empty, it does not begin with
/// a hyphen, and there is a letter in it.
pub proof fn a_name_is_as_safe_as_its_parts(name: Seq<char>, parts: Seq<Seq<char>>, dot: bool)
    requires
        parts.len() > 0,
        forall|k: int, j: int|
            0 <= k < parts.len() && 0 <= j < parts[k].len() ==> #[trigger] parts[k][j] != '.',
        dot || parts[0].len() > 0,
        dot ==> name == seq!['.'] + (parts.drop_last().map_values(
            |p: Seq<char>| p.push('.'),
        ).flatten() + parts.last()),
        !dot ==> name == parts.drop_last().map_values(|p: Seq<char>| p.push('.')).flatten()
            + parts.last(),
    ensures
        safe_filename(name) <==> {
            &&& forall|k: int| 0 <= k < parts.len() ==> (#[trigger] parts[k]).len() > 0
            &&& forall|j: int|
                0 <= j < parts[0].len() ==> is_letter(#[trigger] parts[0][j]) || is_digit(
                    parts[0][j],
                ) || parts[0][j] == '_' || parts[0][j] == '-' || parts[0][j] == '+'
            &&& forall|k: int, j: int|
                1 <= k < parts.len() && 0 <= j < parts[k].len() ==> is_letter(
                    #[trigger] parts[k][j],
                ) || is_digit(parts[k][j])
            &&& name[0] != '-'
            &&& exists|i: int| 0 <= i < name.len() && is_letter(#[trigger] name[i])
        },
{
    let joined = parts.drop_last().map_values(|p: Seq<char>| p.push('.')).flatten() + parts.last();
    crate::text::splitting_undoes_joining(parts, '.');
    lemma_joined_starts_with_the_first(parts);
    if dot {
        assert(name.skip(1) =~= joined);
    } else {
        assert(name[0] == parts[0][0]);
        assert(parts[0][0] != '.');
    }
    assert(name_parts(name) == parts);
    if dot && parts[0].len() > 0 {
        assert(name[1] == joined[0]);
        assert(joined[0] == parts[0][0]);
        assert(parts[0][0] != '.');
    }
    if safe_filename(name) {
        assert forall|k: int| 0 <= k < parts.len() implies (#[trigger] parts[k]).len() > 0 by {
            if k > 0 {
                assert(plain_extension(parts[k]));
            }
        }
        assert forall|j: int| 0 <= j < parts[0].len() implies is_letter(#[trigger] parts[0][j])
            || is_digit(parts[0][j]) || parts[0][j] == '_' || parts[0][j] == '-' || parts[0][j]
            == '+' by {
            assert(stem_char(parts[0][j]));
        }
        assert forall|k: int, j: int|
            1 <= k < parts.len() && 0 <= j < parts[k].len() implies is_letter(
            #[trigger] parts[k][j],
        ) || is_digit(parts[k][j]) by {
            assert(plain_extension(parts[k]));
            assert(alphanumeric(parts[k][j]));
        }
    } else {
        assert(!({
            &&& plain_stem(parts[0])
            &&& forall|k: int| 1 <= k < parts.len() ==> plain_extension(#[trigger] parts[k])
            &&& name[0] != '-'
            &&& exists|i: int| 0 <= i < name.len() && is_letter(#[trigger] name[i])
        })) by {
            if parts[0].len() > 0 && dot {
                assert(name[1] != '.');
            }
        }
        if !plain_stem(parts[0]) {
            if parts[0].len() > 0 {
                let j = choose|j: int| 0 <= j < parts[0].len() && !stem_char(#[trigger] parts[0][j]);
                assert(!is_letter(parts[0][j]));
            }
        } else if exists|k: int| 1 <= k < parts.len() && !plain_extension(#[trigger] parts[k]) {
            let k = choose|k: int| 1 <= k < parts.len() && !plain_extension(#[trigger] parts[k]);
            if parts[k].len() > 0 {
                let j = choose|j: int|
                    0 <= j < parts[k].len() && !alphanumeric(#[trigger] parts[k][j]);
                assert(!is_letter(parts[k][j]) && !is_digit(parts[k][j]));
            }
        }
    }
}

proof fn lemma_joined_starts_with_the_first(parts: Seq<Seq<char>>)
    requires
        parts.len() > 0,
    ensures
        ({
            let joined = parts.drop_last().map_values(|p: Seq<char>| p.push('.')).flatten()
                + parts.last();
            &&& joined.len() >= parts[0].len()
            &&& forall|j: int| 0 <= j < parts[0].len() ==> joined[j] == #[trigger] parts[0][j]
            &&& parts[0].len() == 0 && parts.len() > 1 ==> joined.len() > 0 && joined[0] == '.'
        }),
{
    let ended = parts.drop_last().map_values(|p: Seq<char>| p.push('.'));
    if parts.len() == 1 {
        assert(ended =~= Seq::empty());
    } else {
        assert(ended[0] == parts[0].push('.'));
        assert(ended.flatten() == ended[0] + ended.drop_first().flatten());
        assert forall|j: int| 0 <= j < parts[0].len() implies (ended.flatten() + parts.last())[j]
            == #[trigger] parts[0][j] by {
            assert(ended[0][j] == parts[0][j]);
        }
    }
}

} // verus!
