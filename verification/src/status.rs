//! The git column of the directory listing: two characters for each entry,
//! staged then unstaged, `-` for unchanged.
use crate::escape::control;
use crate::git::{statuses, Status};
use crate::text::{
    after_prefix,
    chars_begin_with,
    chars_of,
    find_from,
    first_at,
    lemma_first_at_is,
    same_chars,
    slice_chars,
    texts,
};
use vstd::prelude::*;

verus! {

/// The two characters shown for an entry.
pub type Columns = [char; 2];

/// The columns of several entries, as values of the model.
pub open spec fn columns_of(v: Seq<Columns>) -> Seq<(char, char)> {
    v.map_values(|c: Columns| (c@[0], c@[1]))
}

/// Whether two status letters mean a conflict: `AA` and `DD` hold no `U` of
/// their own.
pub open spec fn unmerged(x: u8, y: u8) -> bool {
    ||| x == 68 && y == 68
    ||| x == 65 && y == 85
    ||| x == 85 && y == 68
    ||| x == 85 && y == 65
    ||| x == 68 && y == 85
    ||| x == 65 && y == 65
    ||| x == 85 && y == 85
}

/// The character shown for a status letter.
pub open spec fn shown_letter(c: u8) -> char {
    if c == 32 {
        '-'
    } else if c == 65 || c == 67 {
        'N'
    } else {
        c as char
    }
}

/// The characters shown for two status letters.
pub open spec fn shown_status(x: u8, y: u8) -> (char, char) {
    if x == 63 && y == 63 {
        ('-', 'N')
    } else if x == 33 && y == 33 {
        ('-', 'I')
    } else if unmerged(x, y) {
        ('U', 'U')
    } else {
        (shown_letter(x), shown_letter(y))
    }
}

fn display_letter(c: u8) -> (r: char)
    ensures
        r == shown_letter(c),
{
    if c == 32 {
        '-'
    } else if c == 65 || c == 67 {
        'N'
    } else {
        c as char
    }
}

/// The characters shown for two status letters.
pub fn display_status(xy: [u8; 2]) -> (r: Columns)
    ensures
        (r@[0], r@[1]) == shown_status(xy@[0], xy@[1]),
        unmerged(xy@[0], xy@[1]) ==> r@ == seq!['U', 'U'],
{
    let x = xy[0];
    let y = xy[1];
    if x == 63 && y == 63 {
        return ['-', 'N'];
    }
    if x == 33 && y == 33 {
        return ['-', 'I'];
    }
    if (x == 68 && y == 68) || (x == 65 && y == 85) || (x == 85 && y == 68) || (x == 85 && y == 65)
        || (x == 68 && y == 85) || (x == 65 && y == 65) || (x == 85 && y == 85) {
        let r = ['U', 'U'];
        assert(r@ =~= seq!['U', 'U']);
        return r;
    }
    [display_letter(x), display_letter(y)]
}

/// How notable a character is.
pub open spec fn rank(c: char) -> int {
    match c {
        '-' => 0,
        'I' => 1,
        'R' => 2,
        'T' => 3,
        'N' => 4,
        'D' => 5,
        'M' => 6,
        _ => 7,
    }
}

fn rank_of(c: char) -> (r: u8)
    ensures
        r == rank(c),
{
    match c {
        '-' => 0,
        'I' => 1,
        'R' => 2,
        'T' => 3,
        'N' => 4,
        'D' => 5,
        'M' => 6,
        _ => 7,
    }
}

/// The more notable of two characters, the first where neither is.
pub open spec fn notable(a: char, b: char) -> char {
    if rank(b) > rank(a) {
        b
    } else {
        a
    }
}

/// The more notable in each column.
pub open spec fn merged(a: (char, char), b: (char, char)) -> (char, char) {
    (notable(a.0, b.0), notable(a.1, b.1))
}

/// Puts the more notable status in each column.
pub fn merge(into: &mut Columns, from: Columns)
    ensures
        (final(into)@[0], final(into)@[1]) == merged(
            (old(into)@[0], old(into)@[1]),
            (from@[0], from@[1]),
        ),
{
    let a = if rank_of(from[0]) > rank_of(into[0]) {
        from[0]
    } else {
        into[0]
    };
    let b = if rank_of(from[1]) > rank_of(into[1]) {
        from[1]
    } else {
        into[1]
    };
    *into = [a, b];
}

/// Whether `path` is `ancestor` or lies below it.
pub open spec fn lies_in(ancestor: Seq<char>, path: Seq<char>) -> bool {
    after_prefix(path, ancestor) matches Some(rest) && (rest.len() == 0 || rest[0] == '/')
}

fn covers_chars(ancestor: &[char], path: &[char]) -> (r: bool)
    ensures
        r == lies_in(ancestor@, path@),
{
    if !chars_begin_with(path, ancestor) {
        return false;
    }
    let n = ancestor.len();
    let rest_is_empty = path.len() == n;
    assert(!rest_is_empty ==> path@.skip(n as int)[0] == path@[n as int]);
    rest_is_empty || path[n] == '/'
}

/// Whether `path` is `ancestor` or lies below it.
pub fn covers(ancestor: &str, path: &str) -> (r: bool)
    ensures
        r == lies_in(ancestor@, path@),
{
    covers_chars(chars_of(ancestor).as_slice(), chars_of(path).as_slice())
}

/// The first part of a path.
pub open spec fn head(p: Seq<char>) -> Seq<char> {
    p.take(first_at(p, '/'))
}

/// A path without the slashes at its end.
pub open spec fn without_slashes(p: Seq<char>) -> Seq<char>
    decreases p.len(),
{
    if p.len() > 0 && p.last() == '/' {
        without_slashes(p.drop_last())
    } else {
        p
    }
}

/// The last of the first `n` paths that starts with the part `h`, none where
/// no path does.
pub open spec fn owner(paths: Seq<Seq<char>>, h: Seq<char>, n: int) -> Option<int>
    decreases n,
{
    if n <= 0 {
        None
    } else if head(paths[n - 1]) == h {
        Some(n - 1)
    } else {
        owner(paths, h, n - 1)
    }
}

/// Whether a status counts for the `i`th path: it speaks of the whole
/// directory, or of something at or below the first part of the path. What is
/// ignored deeper down does not count, only an ignored path that is this one or
/// holds it.
pub open spec fn lands(paths: Seq<Seq<char>>, status: (Seq<u8>, Seq<char>), i: int) -> bool {
    let (xy, rel) = status;
    rel.len() == 0 || (owner(paths, head(rel), paths.len() as int) == Some(i) && (xy != seq![
        33u8,
        33u8,
    ] || lies_in(without_slashes(rel), paths[i])))
}

/// What the `i`th path shows after the first `n` statuses.
pub open spec fn column_after(
    paths: Seq<Seq<char>>,
    status: Seq<(Seq<u8>, Seq<char>)>,
    i: int,
    n: int,
) -> (char, char)
    decreases n,
{
    if n <= 0 {
        ('-', '-')
    } else {
        let before = column_after(paths, status, i, n - 1);
        let (xy, rel) = status[n - 1];
        if lands(paths, status[n - 1], i) {
            merged(before, shown_status(xy[0], xy[1]))
        } else {
            before
        }
    }
}

/// What each path shows.
pub open spec fn columns(paths: Seq<Seq<char>>, status: Seq<(Seq<u8>, Seq<char>)>) -> Seq<
    (char, char),
> {
    Seq::new(paths.len(), |i: int| column_after(paths, status, i, status.len() as int))
}

fn head_chars(p: &Vec<char>) -> (v: Vec<char>)
    ensures
        v@ == head(p@),
{
    let end = find_from(p.as_slice(), 0, '/');
    assert(p@.skip(0) == p@);
    let v = slice_chars(p.as_slice(), 0, end);
    assert(v@ == head(p@));
    v
}

fn trim_slashes(p: &Vec<char>) -> (v: Vec<char>)
    ensures
        v@ == without_slashes(p@),
{
    let mut n: usize = p.len();
    assert(p@.take(p@.len() as int) == p@);
    while n > 0 && p[n - 1] == '/'
        invariant
            n <= p@.len(),
            without_slashes(p@.take(n as int)) == without_slashes(p@),
        decreases n,
    {
        assert(p@.take(n as int).drop_last() == p@.take(n - 1));
        n -= 1;
    }
    let v = slice_chars(p.as_slice(), 0, n);
    assert(v@ == p@.take(n as int));
    v
}

/// The paths as characters.
fn path_chars(paths: &Vec<String>) -> (v: Vec<Vec<char>>)
    ensures
        v@.len() == paths@.len(),
        forall|i: int| 0 <= i < v@.len() ==> (#[trigger] v@[i])@ == texts(paths@)[i],
{
    let mut v: Vec<Vec<char>> = Vec::new();
    for i in 0..paths.len()
        invariant
            v@.len() == i,
            forall|j: int| 0 <= j < i ==> (#[trigger] v@[j])@ == texts(paths@)[j],
    {
        v.push(chars_of(paths[i].as_str()));
    }
    v
}

fn find_owner(paths: &Vec<Vec<char>>, rel: &Vec<char>) -> (r: Option<usize>)
    ensures
        ({
            let all = Seq::new(paths@.len(), |i: int| paths@[i]@);
            match r {
                Some(i) => owner(all, head(rel@), all.len() as int) == Some(i as int) && i
                    < paths@.len(),
                None => owner(all, head(rel@), all.len() as int) is None,
            }
        }),
{
    let h = head_chars(rel);
    let ghost all = Seq::new(paths@.len(), |i: int| paths@[i]@);
    let mut n: usize = paths.len();
    while n > 0
        invariant
            n <= paths@.len(),
            all == Seq::new(paths@.len(), |i: int| paths@[i]@),
            h@ == head(rel@),
            owner(all, head(rel@), n as int) == owner(all, head(rel@), all.len() as int),
        decreases n,
    {
        let p = head_chars(&paths[n - 1]);
        assert(all[n - 1] == paths@[n - 1]@);
        if same_chars(p.as_slice(), h.as_slice()) {
            return Some(n - 1);
        }
        n -= 1;
    }
    None
}

/// The two characters shown for each of `paths`, an entry with its collapsed
/// chain. A directory shows the most notable status among its contents; only a
/// path that is ignored itself, or sits in an ignored directory, shows as
/// ignored.
pub fn git_columns(paths: &Vec<String>, status: &Vec<Status>) -> (cols: Vec<Columns>)
    ensures
        columns_of(cols@) == columns(texts(paths@), statuses(status@)),
{
    let ghost all = texts(paths@);
    let ghost sts = statuses(status@);
    let chars = path_chars(paths);
    assert(Seq::new(chars@.len(), |i: int| chars@[i]@) =~= all);
    let mut cols: Vec<Columns> = Vec::new();
    for i in 0..paths.len()
        invariant
            cols@.len() == i,
            forall|j: int| 0 <= j < i ==> (#[trigger] cols@[j])@[0] == '-' && cols@[j]@[1] == '-',
    {
        cols.push(['-', '-']);
    }
    for n in 0..status.len()
        invariant
            cols@.len() == all.len(),
            all == texts(paths@),
            sts == statuses(status@),
            chars@.len() == all.len(),
            all == Seq::new(chars@.len(), |i: int| chars@[i]@),
            forall|i: int|
                0 <= i < all.len() ==> ((#[trigger] cols@[i])@[0], cols@[i]@[1]) == column_after(
                    all,
                    sts,
                    i,
                    n as int,
                ),
    {
        let xy = status[n].0;
        let rel = chars_of(status[n].1.as_str());
        let shown = display_status(xy);
        assert(sts[n as int] == (xy@, rel@));
        let ghost before = cols@;
        if rel.len() == 0 {
            let count = cols.len();
            for i in 0..count
                invariant
                    count == all.len(),
                    cols@.len() == all.len(),
                    before.len() == all.len(),
                    forall|j: int| i <= j < all.len() ==> cols@[j] == before[j],
                    forall|j: int|
                        0 <= j < i ==> ((#[trigger] cols@[j])@[0], cols@[j]@[1]) == merged(
                            (before[j]@[0], before[j]@[1]),
                            (shown@[0], shown@[1]),
                        ),
            {
                let mut c = cols[i];
                merge(&mut c, shown);
                cols.set(i, c);
            }
        } else {
            match find_owner(&chars, &rel) {
                Some(i) => {
                    let ignored = xy[0] == 33 && xy[1] == 33;
                    assert(ignored <==> xy@ == seq![33u8, 33u8]) by {
                        if ignored {
                            assert(xy@ =~= seq![33u8, 33u8]);
                        }
                    }
                    assert(chars@[i as int]@ == all[i as int]);
                    if !ignored || covers_chars(
                        trim_slashes(&rel).as_slice(),
                        chars[i].as_slice(),
                    ) {
                        let mut c = cols[i];
                        merge(&mut c, shown);
                        cols.set(i, c);
                    }
                },
                None => {},
            }
        }
    }
    assert(columns_of(cols@) =~= columns(all, sts));
    cols
}

/// A row shows the most notable status that counts for it, in each column:
/// none that counts is more notable, and what is shown is one that counts, or
/// that nothing changed.
pub proof fn a_row_shows_the_most_notable_status(
    paths: Seq<Seq<char>>,
    status: Seq<(Seq<u8>, Seq<char>)>,
    i: int,
    n: int,
)
    requires
        0 <= i < paths.len(),
        0 <= n <= status.len(),
    ensures
        ({
            let shown = column_after(paths, status, i, n);
            let at = |k: int| shown_status(status[k].0[0], status[k].0[1]);
            &&& forall|k: int|
                0 <= k < n && #[trigger] lands(paths, status[k], i) ==> rank(at(k).0) <= rank(
                    shown.0,
                ) && rank(at(k).1) <= rank(shown.1)
            &&& shown.0 == '-' || exists|k: int|
                0 <= k < n && #[trigger] lands(paths, status[k], i) && at(k).0 == shown.0
            &&& shown.1 == '-' || exists|k: int|
                0 <= k < n && #[trigger] lands(paths, status[k], i) && at(k).1 == shown.1
        }),
    decreases n,
{
    if n > 0 {
        a_row_shows_the_most_notable_status(paths, status, i, n - 1);
        let before = column_after(paths, status, i, n - 1);
        let shown = column_after(paths, status, i, n);
        let at = |k: int| shown_status(status[k].0[0], status[k].0[1]);
        assert forall|k: int| 0 <= k < n && #[trigger] lands(paths, status[k], i) implies rank(
            at(k).0,
        ) <= rank(shown.0) && rank(at(k).1) <= rank(shown.1) by {
            if k < n - 1 {
                assert(lands(paths, status[k], i));
            }
        }
        if shown.0 != '-' {
            if shown.0 != before.0 {
                assert(lands(paths, status[n - 1], i));
            } else {
                let k = choose|k: int|
                    0 <= k < n - 1 && #[trigger] lands(paths, status[k], i) && at(k).0 == before.0;
                assert(lands(paths, status[k], i));
            }
        }
        if shown.1 != '-' {
            if shown.1 != before.1 {
                assert(lands(paths, status[n - 1], i));
            } else {
                let k = choose|k: int|
                    0 <= k < n - 1 && #[trigger] lands(paths, status[k], i) && at(k).1 == before.1;
                assert(lands(paths, status[k], i));
            }
        }
    }
}

/// Whether the letters of statuses are letters, or other characters that show,
/// as git's are.
pub open spec fn letters_show(status: Seq<(Seq<u8>, Seq<char>)>) -> bool {
    forall|k: int|
        0 <= k < status.len() ==> !control((#[trigger] status[k]).0[0] as char) && !control(
            status[k].0[1] as char,
        )
}

/// What a row shows for git are no control characters, where the letters of the
/// statuses are none.
pub proof fn a_row_shows_letters(
    paths: Seq<Seq<char>>,
    status: Seq<(Seq<u8>, Seq<char>)>,
    i: int,
    n: int,
)
    requires
        letters_show(status),
        0 <= n <= status.len(),
    ensures
        !control(column_after(paths, status, i, n).0),
        !control(column_after(paths, status, i, n).1),
    decreases n,
{
    if n > 0 {
        a_row_shows_letters(paths, status, i, n - 1);
        assert(!control(status[n - 1].0[0] as char));
    }
}

/// An ignored path that lies below a row does not make the row ignored, or
/// anything else: it does not count.
pub proof fn an_ignored_path_below_does_not_count(
    paths: Seq<Seq<char>>,
    rel: Seq<char>,
    i: int,
)
    requires
        0 <= i < paths.len(),
        rel.len() > 0,
        !lies_in(without_slashes(rel), paths[i]),
    ensures
        !lands(paths, (seq![33u8, 33u8], rel), i),
{
}

/// From the least to the most notable: unchanged, ignored, renamed, another
/// type, new, deleted, modified, and then all that is a conflict or unknown.
pub proof fn the_order_of_notability()
    ensures
        rank('-') < rank('I') < rank('R') < rank('T') < rank('N') < rank('D') < rank('M'),
        forall|c: char|
            c != '-' && c != 'I' && c != 'R' && c != 'T' && c != 'N' && c != 'D' && c != 'M'
                ==> #[trigger] rank(c) > rank('M') && rank(c) == rank('U'),
{
}

/// What is untracked shows as new and what is ignored as ignored, both in the
/// second column; a conflict shows as one in both, whichever pair of letters it
/// has; and of every other pair each letter shows in its own column, where what
/// was added or copied is new and a space is unchanged.
pub proof fn what_a_status_shows(x: u8, y: u8)
    ensures
        ({
            let (a, b) = shown_status(x, y);
            let d: char = x as char;
            let e: char = y as char;
            let conflict = (d == 'U' || e == 'U') && (d == 'A' || d == 'D' || d == 'U') && (e == 'A'
                || e == 'D' || e == 'U') || (d == 'A' && e == 'A') || (d == 'D' && e == 'D');
            let special = conflict || (d == '?' && e == '?') || (d == '!' && e == '!');
            &&& d == '?' && e == '?' ==> a == '-' && b == 'N'
            &&& d == '!' && e == '!' ==> a == '-' && b == 'I'
            &&& conflict ==> a == 'U' && b == 'U'
            &&& !special ==> {
                &&& d == ' ' ==> a == '-'
                &&& d == 'A' || d == 'C' ==> a == 'N'
                &&& d != ' ' && d != 'A' && d != 'C' ==> a == d
                &&& e == ' ' ==> b == '-'
                &&& e == 'A' || e == 'C' ==> b == 'N'
                &&& e != ' ' && e != 'A' && e != 'C' ==> b == e
            }
        }),
{
}

proof fn lemma_head_is(p: Seq<char>, name: Seq<char>)
    requires
        !name.contains('/'),
        p == name || (name + seq!['/']).is_prefix_of(p),
    ensures
        head(p) == name,
{
    assert forall|i: int| 0 <= i < name.len() implies p[i] != '/' by {
        if p != name {
            assert(p[i] == (name + seq!['/'])[i]);
        }
        assert(name.contains(name[i]));
    }
    if p != name {
        assert(p[name.len() as int] == (name + seq!['/'])[name.len() as int]);
    }
    lemma_first_at_is(p, '/', name.len() as int);
    assert(p.take(name.len() as int) =~= name);
}

proof fn lemma_owner_is(paths: Seq<Seq<char>>, names: Seq<Seq<char>>, i: int, n: int)
    requires
        names.len() == paths.len(),
        names.no_duplicates(),
        forall|a: int| 0 <= a < paths.len() ==> head(#[trigger] paths[a]) == names[a],
        0 <= i < paths.len(),
        0 <= n <= paths.len(),
    ensures
        owner(paths, names[i], n) == (if i < n {
            Some(i)
        } else {
            None
        }),
    decreases n,
{
    if n > 0 {
        lemma_owner_is(paths, names, i, n - 1);
        assert(head(paths[n - 1]) == names[n - 1]);
    }
}

proof fn lemma_without_slashes_is(p: Seq<char>, t: Seq<char>)
    requires
        t.len() > 0 ==> t.last() != '/',
        t.is_prefix_of(p),
        forall|i: int| t.len() <= i < p.len() ==> p[i] == '/',
    ensures
        without_slashes(p) == t,
    decreases p.len(),
{
    if p.len() > t.len() {
        assert(p.last() == '/');
        let q = p.drop_last();
        assert(t =~= q.subrange(0, t.len() as int));
        assert forall|i: int| t.len() <= i < q.len() implies q[i] == '/' by {
            assert(q[i] == p[i]);
        }
        lemma_without_slashes_is(q, t);
    } else {
        assert(p =~= t);
    }
}

/// Names of rows: the first parts of their paths, which are no two the same.
spec fn rows_named(paths: Seq<Seq<char>>, names: Seq<Seq<char>>) -> bool {
    &&& names.len() == paths.len()
    &&& names.no_duplicates()
    &&& forall|a: int|
        #![trigger paths[a]]
        #![trigger names[a]]
        0 <= a < paths.len() ==> !names[a].contains('/') && (paths[a] == names[a] || (names[a]
            + seq!['/']).is_prefix_of(paths[a]))
}

proof fn lemma_rows_named(paths: Seq<Seq<char>>, names: Seq<Seq<char>>)
    requires
        rows_named(paths, names),
    ensures
        forall|a: int| 0 <= a < paths.len() ==> head(#[trigger] paths[a]) == names[a],
{
    assert forall|a: int| 0 <= a < paths.len() implies head(#[trigger] paths[a]) == names[a] by {
        assert(!names[a].contains('/'));
        lemma_head_is(paths[a], names[a]);
    }
}

/// A directory shows the most notable status inside it, however deep: a row's
/// columns are at least as notable as what is shown for any path at or below the
/// row's name that is not ignored, and of anything said of the listed directory
/// as a whole.
pub proof fn a_row_shows_what_lies_below_it(
    paths: Seq<Seq<char>>,
    names: Seq<Seq<char>>,
    status: Seq<(Seq<u8>, Seq<char>)>,
    i: int,
    k: int,
)
    requires
        names.len() == paths.len(),
        names.no_duplicates(),
        forall|a: int|
            #![trigger paths[a]]
            #![trigger names[a]]
            0 <= a < paths.len() ==> !names[a].contains('/') && (paths[a] == names[a] || (names[a]
                + seq!['/']).is_prefix_of(paths[a])),
        0 <= i < paths.len(),
        0 <= k < status.len(),
        status[k].1.len() == 0 || (status[k].0 != seq![33u8, 33u8] && (status[k].1 == names[i] || (
        names[i] + seq!['/']).is_prefix_of(status[k].1))),
    ensures
        ({
            let shown = shown_status(status[k].0[0], status[k].0[1]);
            let row = columns(paths, status)[i];
            rank(shown.0) <= rank(row.0) && rank(shown.1) <= rank(row.1)
        }),
{
    lemma_rows_named(paths, names);
    if status[k].1.len() > 0 {
        assert(!names[i].contains('/'));
        lemma_head_is(status[k].1, names[i]);
        lemma_owner_is(paths, names, i, paths.len() as int);
    }
    assert(lands(paths, status[k], i));
    a_row_shows_the_most_notable_status(paths, status, i, status.len() as int);
}

/// A change below a row's own path shows in the row, at any depth.
pub proof fn a_change_at_any_depth_shows(
    paths: Seq<Seq<char>>,
    names: Seq<Seq<char>>,
    status: Seq<(Seq<u8>, Seq<char>)>,
    i: int,
    k: int,
)
    requires
        names.len() == paths.len(),
        names.no_duplicates(),
        forall|a: int|
            #![trigger paths[a]]
            #![trigger names[a]]
            0 <= a < paths.len() ==> !names[a].contains('/') && (paths[a] == names[a] || (names[a]
                + seq!['/']).is_prefix_of(paths[a])),
        0 <= i < paths.len(),
        0 <= k < status.len(),
        status[k].0 != seq![33u8, 33u8],
        (paths[i] + seq!['/']).is_prefix_of(status[k].1),
    ensures
        ({
            let shown = shown_status(status[k].0[0], status[k].0[1]);
            let row = columns(paths, status)[i];
            rank(shown.0) <= rank(row.0) && rank(shown.1) <= rank(row.1)
        }),
{
    let rel = status[k].1;
    let name = names[i];
    assert(!name.contains('/'));
    if paths[i] != name {
        let up = name + seq!['/'];
        let own = paths[i] + seq!['/'];
        assert forall|j: int| 0 <= j < up.len() implies up[j] == rel.subrange(
            0,
            up.len() as int,
        )[j] by {
            assert(up[j] == paths[i].subrange(0, up.len() as int)[j]);
            assert(own[j] == paths[i][j]);
            assert(own[j] == rel.subrange(0, own.len() as int)[j]);
        }
        assert(up =~= rel.subrange(0, up.len() as int));
    }
    a_row_shows_what_lies_below_it(paths, names, status, i, k);
}

/// An ignored path that is the row's own, or a directory that holds it, shows:
/// the row is at least as notable as an ignored one. `rel` may end in slashes
/// behind `place`.
pub proof fn an_ignored_row_shows_as_ignored(
    paths: Seq<Seq<char>>,
    names: Seq<Seq<char>>,
    status: Seq<(Seq<u8>, Seq<char>)>,
    i: int,
    k: int,
    place: Seq<char>,
)
    requires
        names.len() == paths.len(),
        names.no_duplicates(),
        forall|a: int|
            #![trigger paths[a]]
            #![trigger names[a]]
            0 <= a < paths.len() ==> !names[a].contains('/') && (paths[a] == names[a] || (names[a]
                + seq!['/']).is_prefix_of(paths[a])),
        0 <= i < paths.len(),
        0 <= k < status.len(),
        status[k].0 == seq![33u8, 33u8],
        place.len() > 0,
        place.last() != '/',
        place.is_prefix_of(status[k].1),
        forall|j: int| place.len() <= j < status[k].1.len() ==> status[k].1[j] == '/',
        place == paths[i] || (place + seq!['/']).is_prefix_of(paths[i]),
        place == names[i] || (names[i] + seq!['/']).is_prefix_of(place),
    ensures
        rank(columns(paths, status)[i].1) >= rank('I'),
{
    let rel = status[k].1;
    let name = names[i];
    lemma_rows_named(paths, names);
    assert(!name.contains('/'));
    lemma_without_slashes_is(rel, place);
    if rel != name {
        let up = name + seq!['/'];
        assert(place =~= rel.subrange(0, place.len() as int));
        if place == name {
            assert(rel.len() > name.len()) by {
                if rel.len() == name.len() {
                    assert(rel =~= name);
                }
            }
            assert(up =~= rel.subrange(0, up.len() as int));
        } else {
            assert(up =~= rel.subrange(0, up.len() as int)) by {
                assert forall|j: int| 0 <= j < up.len() implies up[j] == #[trigger] rel.subrange(
                    0,
                    up.len() as int,
                )[j] by {
                    assert(up[j] == place.subrange(0, up.len() as int)[j]);
                    assert(place[j] == rel.subrange(0, place.len() as int)[j]);
                }
            }
        }
    }
    lemma_head_is(rel, name);
    lemma_owner_is(paths, names, i, paths.len() as int);
    if place == paths[i] {
        assert(paths[i].take(place.len() as int) =~= place);
    } else {
        let up = place + seq!['/'];
        assert(paths[i].take(place.len() as int) =~= place) by {
            assert forall|j: int| 0 <= j < place.len() implies #[trigger] paths[i][j]
                == place[j] by {
                assert(up[j] == paths[i].subrange(0, up.len() as int)[j]);
            }
        }
        assert(up[place.len() as int] == paths[i].subrange(0, up.len() as int)[place.len() as int]);
        assert(paths[i].skip(place.len() as int)[0] == '/');
    }
    assert(lies_in(place, paths[i]));
    assert(lands(paths, status[k], i));
    a_row_shows_the_most_notable_status(paths, status, i, status.len() as int);
    the_order_of_notability();
}

proof fn lemma_what_lands(
    paths: Seq<Seq<char>>,
    names: Seq<Seq<char>>,
    one: (Seq<u8>, Seq<char>),
    i: int,
)
    requires
        rows_named(paths, names),
        0 <= i < paths.len(),
        lands(paths, one, i),
        one.1.len() > 0,
    ensures
        one.1 == names[i] || (names[i] + seq!['/']).is_prefix_of(one.1),
        one.0 == seq![33u8, 33u8] ==> without_slashes(one.1) == paths[i] || (without_slashes(one.1)
            + seq!['/']).is_prefix_of(paths[i]),
{
    let rel = one.1;
    lemma_rows_named(paths, names);
    crate::text::lemma_first_at(rel, '/');
    let n = first_at(rel, '/');
    lemma_owner_names(paths, head(rel), paths.len() as int);
    assert(head(paths[i]) == names[i]);
    assert(rel.take(n) == names[i]);
    if n < rel.len() {
        assert(names[i] + seq!['/'] =~= rel.subrange(0, n + 1));
    } else {
        assert(rel.take(n) =~= rel);
    }
    if one.0 == seq![33u8, 33u8] {
        let t = without_slashes(rel);
        let m = t.len() as int;
        if m == paths[i].len() {
            assert(paths[i].take(m) =~= paths[i]);
        } else {
            assert(paths[i].skip(m)[0] == paths[i][m]);
            assert(paths[i].take(m) + seq!['/'] =~= paths[i].subrange(0, m + 1));
        }
    }
}

proof fn lemma_owner_names(paths: Seq<Seq<char>>, h: Seq<char>, n: int)
    requires
        0 <= n <= paths.len(),
    ensures
        owner(paths, h, n) matches Some(i) ==> 0 <= i < n && head(paths[i]) == h,
    decreases n,
{
    if n > 0 {
        lemma_owner_names(paths, h, n - 1);
    }
}

/// A row shows nothing that is not its own: what it shows in a column, where it
/// shows a change, is what is shown for some status of the whole directory, or of
/// a path at or below the row's name, and of an ignored one only where that path,
/// without the slashes at its end, is the row's own or holds it.
pub proof fn a_row_shows_only_what_concerns_it(
    paths: Seq<Seq<char>>,
    names: Seq<Seq<char>>,
    status: Seq<(Seq<u8>, Seq<char>)>,
    i: int,
)
    requires
        names.len() == paths.len(),
        names.no_duplicates(),
        forall|a: int|
            #![trigger paths[a]]
            #![trigger names[a]]
            0 <= a < paths.len() ==> !names[a].contains('/') && (paths[a] == names[a] || (names[a]
                + seq!['/']).is_prefix_of(paths[a])),
        0 <= i < paths.len(),
    ensures
        ({
            let row = columns(paths, status)[i];
            let concerns = |k: int|
                {
                    let (xy, rel) = status[k];
                    ||| rel.len() == 0
                    ||| (rel == names[i] || (names[i] + seq!['/']).is_prefix_of(rel)) && (xy
                        == seq![33u8, 33u8] ==> exists|n: int|
                        0 <= n <= rel.len() && (#[trigger] rel.take(n) == paths[i] || (rel.take(n)
                            + seq!['/']).is_prefix_of(paths[i])) && forall|j: int|
                            n <= j < rel.len() ==> rel[j] == '/')
                };
            &&& row.0 == '-' || exists|k: int|
                0 <= k < status.len() && #[trigger] concerns(k) && shown_status(
                    status[k].0[0],
                    status[k].0[1],
                ).0 == row.0
            &&& row.1 == '-' || exists|k: int|
                0 <= k < status.len() && #[trigger] concerns(k) && shown_status(
                    status[k].0[0],
                    status[k].0[1],
                ).1 == row.1
        }),
{
    let row = columns(paths, status)[i];
    let concerns = |k: int|
        {
            let (xy, rel) = status[k];
            ||| rel.len() == 0
            ||| (rel == names[i] || (names[i] + seq!['/']).is_prefix_of(rel)) && (xy == seq![
                33u8,
                33u8,
            ] ==> exists|n: int|
                0 <= n <= rel.len() && (#[trigger] rel.take(n) == paths[i] || (rel.take(n)
                    + seq!['/']).is_prefix_of(paths[i])) && forall|j: int|
                    n <= j < rel.len() ==> rel[j] == '/')
        };
    a_row_shows_the_most_notable_status(paths, status, i, status.len() as int);
    assert forall|k: int| 0 <= k < status.len() && #[trigger] lands(
        paths,
        status[k],
        i,
    ) implies concerns(k) by {
        let (xy, rel) = status[k];
        if rel.len() > 0 {
            lemma_what_lands(paths, names, status[k], i);
            lemma_slashes_behind(rel);
            let n = without_slashes(rel).len() as int;
            assert(rel.take(n) == without_slashes(rel));
        }
    }
    let at = |k: int| shown_status(status[k].0[0], status[k].0[1]);
    if row.0 != '-' {
        let k = choose|k: int|
            0 <= k < status.len() && #[trigger] lands(paths, status[k], i) && at(k).0 == row.0;
        assert(concerns(k));
    }
    if row.1 != '-' {
        let k = choose|k: int|
            0 <= k < status.len() && #[trigger] lands(paths, status[k], i) && at(k).1 == row.1;
        assert(concerns(k));
    }
}

proof fn lemma_slashes_behind(p: Seq<char>)
    ensures
        ({
            let n = without_slashes(p).len() as int;
            &&& 0 <= n <= p.len()
            &&& p.take(n) == without_slashes(p)
            &&& forall|j: int| n <= j < p.len() ==> p[j] == '/'
        }),
    decreases p.len(),
{
    if p.len() > 0 && p.last() == '/' {
        let q = p.drop_last();
        lemma_slashes_behind(q);
        let n = without_slashes(q).len() as int;
        assert(p.take(n) =~= q.take(n));
        assert forall|j: int| n <= j < p.len() implies p[j] == '/' by {
            if j < q.len() {
                assert(q[j] == p[j]);
            }
        }
    } else {
        assert(p.take(p.len() as int) =~= p);
    }
}

/// The columns of rows are modelled one by one.
pub proof fn the_columns_of_rows(v: Seq<Columns>, i: int)
    requires
        0 <= i < v.len(),
    ensures
        columns_of(v).len() == v.len(),
        columns_of(v)[i] == (v[i]@[0], v[i]@[1]),
{
}

/// The more notable of two characters is shown, in each column for itself, and the
/// first where they are as notable.
pub proof fn the_more_notable_is_shown(a: (char, char), b: (char, char))
    ensures
        rank(b.0) > rank(a.0) ==> merged(a, b).0 == b.0,
        rank(b.0) <= rank(a.0) ==> merged(a, b).0 == a.0,
        rank(b.1) > rank(a.1) ==> merged(a, b).1 == b.1,
        rank(b.1) <= rank(a.1) ==> merged(a, b).1 == a.1,
{
}

/// A path lies in a directory exactly where it is that directory's own or goes on
/// from it behind a slash.
pub proof fn what_lies_in_a_directory(ancestor: Seq<char>, path: Seq<char>)
    ensures
        lies_in(ancestor, path) <==> path == ancestor || (ancestor + seq!['/']).is_prefix_of(path),
{
    let n = ancestor.len() as int;
    if lies_in(ancestor, path) {
        if path.len() == n {
            assert(path.take(n) =~= path);
        } else {
            assert(path.skip(n)[0] == path[n]);
            assert(path.take(n) + seq!['/'] =~= path.subrange(0, n + 1));
        }
    }
    if path == ancestor {
        assert(path.take(n) =~= ancestor);
    } else if (ancestor + seq!['/']).is_prefix_of(path) {
        let up = ancestor + seq!['/'];
        assert(path.take(n) =~= ancestor) by {
            assert forall|j: int| 0 <= j < n implies #[trigger] path[j] == ancestor[j] by {
                assert(up[j] == path.subrange(0, n + 1)[j]);
            }
        }
        assert(up[n] == path.subrange(0, n + 1)[n]);
        assert(path.skip(n)[0] == path[n]);
    }
}

} // verus!
