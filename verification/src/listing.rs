//! The listing of a directory, in place of file contents: one row for each
//! entry, with its size, its git status and its name.
//!
//! Directories come first, and files whose names start with a dot are listed.
//! Names are colored by the language that they stand for, so that a language
//! keeps its color. A directory whose only entry is another directory is shown
//! with it, `foo/bar/`, down to the first that is not.
use crate::escape::{
    an_escaped_text_is_harmless,
    control,
    escape_controls,
    escaped,
    harmless,
    lemma_harmless_concat,
};
use crate::git::{statuses, Status};
use crate::size::{a_shown_size_is_harmless, human_size, size_text};
use crate::status::{
    a_row_shows_letters,
    columns,
    columns_of,
    git_columns,
    letters_show,
    Columns,
};
use crate::text::{
    chars_of,
    first_at,
    is_text_before,
    lemma_first_at_is,
    same_text,
    text_before,
    text_order_is_total,
    text_order_is_transitive,
    texts,
    texts_are_ordered_by_their_first_difference,
};
use vstd::prelude::*;
use vstd::string::StringExecFns;

verus! {

/// Ends a color.
pub const ANSI_RESET: &'static str = "\x1b[m";

pub const ANSI_DIM: &'static str = "\x1b[2m";

pub const ANSI_DIR: &'static str = "\x1b[1;34m";

pub const ANSI_SYMLINK: &'static str = "\x1b[36m";

/// An entry of a directory.
#[derive(Debug)]
pub struct Entry {
    pub name: String,
    /// Whether it is a directory, or a link to one.
    pub is_dir: bool,
    /// For a link, where it points.
    pub link_target: Option<String>,
    pub size: u64,
    /// The chain of only subdirectories below a real directory, shown with it.
    pub chain: Vec<String>,
    /// The hash of the language that the name stands for, where it does.
    pub language: Option<u64>,
}

/// The texts of a chain, each after a slash.
pub open spec fn chain_path(chain: Seq<Seq<char>>) -> Seq<char>
    decreases chain.len(),
{
    if chain.len() == 0 {
        Seq::empty()
    } else {
        chain_path(chain.drop_last()) + seq!['/'] + chain.last()
    }
}

/// Texts with their control characters as escapes.
pub open spec fn all_escaped(chain: Seq<Seq<char>>) -> Seq<Seq<char>> {
    chain.map_values(|s: Seq<char>| escaped(s))
}

impl Entry {
    /// A real directory, not a link to one.
    pub open spec fn real_dir(self) -> bool {
        self.is_dir && self.link_target is None
    }

    /// Whether this is a real directory, not a link to one: it gets the slash
    /// at the end.
    pub fn is_real_dir(&self) -> (r: bool)
        ensures
            r == self.real_dir(),
    {
        self.is_dir && self.link_target.is_none()
    }

    /// The path of the entry below the listed directory.
    pub open spec fn path_below(self) -> Seq<char> {
        self.name@ + chain_path(texts(self.chain@))
    }

    /// The path of the entry below the listed directory, as it is.
    pub fn rel_path(&self) -> (path: String)
        ensures
            path@ == self.path_below(),
    {
        let mut path = self.name.clone();
        let ghost all = texts(self.chain@);
        assert(self.name@ + Seq::<char>::empty() =~= self.name@);
        for i in 0..self.chain.len()
            invariant
                all == texts(self.chain@),
                path@ == self.name@ + chain_path(all.take(i as int)),
        {
            assert(all.take(i + 1).drop_last() =~= all.take(i as int));
            path.push('/');
            path.append(self.chain[i].as_str());
            assert(path@ =~= self.name@ + chain_path(all.take(i + 1)));
        }
        assert(all.take(all.len() as int) =~= all);
        path
    }

    /// The name of the entry as it is shown.
    pub open spec fn name_shown(self) -> Seq<char> {
        escaped(self.name@) + chain_path(all_escaped(texts(self.chain@))) + (if self.real_dir() {
            seq!['/']
        } else {
            Seq::empty()
        })
    }

    /// The name of the entry as it is shown: with its chain, every part with
    /// its control characters as escapes, and a slash after a real directory.
    pub fn shown_name(&self) -> (shown: String)
        ensures
            shown@ == self.name_shown(),
    {
        let mut shown = escape_controls(self.name.as_str());
        let ghost start = shown@;
        let ghost all = all_escaped(texts(self.chain@));
        assert(start + Seq::<char>::empty() =~= start);
        for i in 0..self.chain.len()
            invariant
                all == all_escaped(texts(self.chain@)),
                shown@ == start + chain_path(all.take(i as int)),
        {
            assert(all.take(i + 1).drop_last() =~= all.take(i as int));
            shown.push('/');
            let part = escape_controls(self.chain[i].as_str());
            shown.append(part.as_str());
            assert(all[i as int] == part@);
            assert(shown@ =~= start + chain_path(all.take(i + 1)));
        }
        assert(all.take(all.len() as int) =~= all);
        if self.is_real_dir() {
            shown.push('/');
        }
        assert(shown@ =~= self.name_shown());
        shown
    }
}

/// What a look into a directory shows, as far as it matters for a chain.
#[derive(Debug)]
pub struct Look {
    /// The name of the first entry.
    pub name: String,
    /// Whether that is a real directory; none where the directory is empty or
    /// cannot be read.
    pub is_dir: Option<bool>,
    /// Whether there is another entry.
    pub has_more: bool,
}

/// Whether a directory holds nothing but one real subdirectory.
pub open spec fn sole(look: Look) -> bool {
    look.is_dir == Some(true) && !look.has_more
}

/// Whether a directory holds nothing but one real subdirectory.
pub fn sole_subdir(look: &Look) -> (r: bool)
    ensures
        r == sole(*look),
{
    match look.is_dir {
        Some(is_dir) => is_dir && !look.has_more,
        None => false,
    }
}

/// The names below a directory for as long as each holds nothing but one real
/// subdirectory.
pub open spec fn sole_chain(looks: Seq<Look>) -> Seq<Seq<char>>
    decreases looks.len(),
{
    if looks.len() == 0 || !sole(looks[0]) {
        Seq::empty()
    } else {
        seq![looks[0].name@] + sole_chain(looks.drop_first())
    }
}

/// The names below a directory for as long as each directory holds nothing but
/// one real subdirectory; `looks` go down the chain from that directory.
pub fn sole_subdir_chain(looks: &Vec<Look>) -> (chain: Vec<String>)
    ensures
        texts(chain@) == sole_chain(looks@),
{
    let mut chain: Vec<String> = Vec::new();
    let mut i: usize = 0;
    assert(looks@.skip(0) =~= looks@);
    assert(texts(chain@) + sole_chain(looks@) =~= sole_chain(looks@));
    while i < looks.len() && sole_subdir(&looks[i])
        invariant
            i <= looks@.len(),
            texts(chain@) + sole_chain(looks@.skip(i as int)) == sole_chain(looks@),
        decreases looks@.len() - i,
    {
        let ghost rest = looks@.skip(i as int);
        let ghost done = texts(chain@);
        assert(rest.drop_first() =~= looks@.skip(i + 1));
        chain.push(looks[i].name.clone());
        assert(texts(chain@) =~= done.push(looks@[i as int].name@));
        assert(texts(chain@) + sole_chain(rest.drop_first()) =~= done + (seq![rest[0].name@]
            + sole_chain(rest.drop_first())));
        i += 1;
    }
    assert(sole_chain(looks@.skip(i as int)) =~= Seq::empty());
    assert(texts(chain@) + Seq::<Seq<char>>::empty() =~= texts(chain@));
    chain
}

/// What came of reading one entry of a directory.
#[derive(Debug)]
pub enum EntryRead {
    Read(Entry),
    /// It was removed since the directory was read.
    Gone,
    /// It could not be read, for the reason given.
    Failed(String),
}

/// The entries of a directory: those that are gone are left out, and the first
/// one that failed decides.
pub open spec fn entries_read(reads: Seq<EntryRead>) -> Result<Seq<Entry>, Seq<char>>
    decreases reads.len(),
{
    if reads.len() == 0 {
        Ok(Seq::empty())
    } else {
        match entries_read(reads.drop_last()) {
            Err(e) => Err(e),
            Ok(before) => match reads.last() {
                EntryRead::Read(entry) => Ok(before.push(entry)),
                EntryRead::Gone => Ok(before),
                EntryRead::Failed(e) => Err(e@),
            },
        }
    }
}

proof fn lemma_a_failure_stays(reads: Seq<EntryRead>, n: int)
    requires
        0 <= n <= reads.len(),
        entries_read(reads.take(n)) is Err,
    ensures
        entries_read(reads) == entries_read(reads.take(n)),
    decreases reads.len(),
{
    if n == reads.len() {
        assert(reads.take(n) =~= reads);
    } else {
        assert(reads.drop_last().take(n) =~= reads.take(n));
        lemma_a_failure_stays(reads.drop_last(), n);
    }
}

/// The entries of a directory: one that was removed meanwhile is simply gone,
/// any other failure is the listing's.
pub fn read_entries(reads: Vec<EntryRead>) -> (r: Result<Vec<Entry>, String>)
    ensures
        match r {
            Ok(entries) => entries_read(reads@) == Ok::<_, Seq<char>>(entries@),
            Err(e) => entries_read(reads@) == Err::<Seq<Entry>, _>(e@),
        },
{
    let mut entries: Vec<Entry> = Vec::new();
    let mut rest = reads;
    let ghost mut n: int = 0;
    while rest.len() > 0
        invariant
            0 <= n <= reads@.len(),
            rest@ == reads@.skip(n),
            entries_read(reads@.take(n)) == Ok::<_, Seq<char>>(entries@),
        decreases rest@.len(),
    {
        assert(reads@.take(n + 1).drop_last() =~= reads@.take(n));
        assert(rest@[0] == reads@[n]);
        assert(rest@.remove(0) =~= reads@.skip(n + 1));
        match rest.remove(0) {
            EntryRead::Read(entry) => {
                entries.push(entry);
            },
            EntryRead::Gone => {},
            EntryRead::Failed(e) => {
                proof {
                    lemma_a_failure_stays(reads@, n + 1);
                }
                return Err(e);
            },
        }
        proof {
            n = n + 1;
        }
    }
    assert(reads@.take(n) =~= reads@);
    Ok(entries)
}

/// The text in lower case, as Unicode has it.
pub uninterp spec fn lowercase(s: Seq<char>) -> Seq<char>;

/// `str::to_lowercase` of the standard library: the text in lower case. Which
/// letters become which is left unsaid.
#[verifier::external_body]
fn to_lowercase(s: &str) -> (r: String)
    ensures
        r@ == lowercase(s@),
{
    s.to_lowercase()
}

/// What an entry is sorted by: whether it is a directory, its name in lower
/// case, and its name.
pub ghost struct SortKey {
    pub is_dir: bool,
    pub lower: Seq<char>,
    pub name: Seq<char>,
}

/// Whether one key comes before another: directories first, then by the name in
/// lower case, then by the name.
pub open spec fn key_before(a: SortKey, b: SortKey) -> bool {
    if a.is_dir != b.is_dir {
        a.is_dir
    } else if a.lower != b.lower {
        text_before(a.lower, b.lower)
    } else {
        text_before(a.name, b.name)
    }
}

/// Whether one entry comes before another.
pub open spec fn before(a: Entry, b: Entry) -> bool {
    key_before(
        SortKey { is_dir: a.is_dir, lower: lowercase(a.name@), name: a.name@ },
        SortKey { is_dir: b.is_dir, lower: lowercase(b.name@), name: b.name@ },
    )
}

/// Whether one entry comes before another, given their names in lower case.
pub fn comes_before_by(a: &Entry, a_lower: &str, b: &Entry, b_lower: &str) -> (r: bool)
    ensures
        r == key_before(
            SortKey { is_dir: a.is_dir, lower: a_lower@, name: a.name@ },
            SortKey { is_dir: b.is_dir, lower: b_lower@, name: b.name@ },
        ),
{
    if a.is_dir != b.is_dir {
        a.is_dir
    } else if same_text(a_lower, b_lower) {
        is_text_before(a.name.as_str(), b.name.as_str())
    } else {
        is_text_before(a_lower, b_lower)
    }
}

fn comes_before(a: &Entry, b: &Entry) -> (r: bool)
    ensures
        r == before(*a, *b),
{
    let x = to_lowercase(a.name.as_str());
    let y = to_lowercase(b.name.as_str());
    comes_before_by(a, x.as_str(), b, y.as_str())
}

/// The order of entries is one: nothing comes before itself, one comes before
/// the other unless both are of a kind and share a name, and it carries over.
pub proof fn the_order_of_entries_is_total(a: Entry, b: Entry, c: Entry)
    ensures
        !(before(a, b) && before(b, a)),
        before(a, b) || before(b, a) || (a.is_dir == b.is_dir && a.name@ == b.name@),
        before(a, b) && before(b, c) ==> before(a, c),
        !before(b, a) && !before(c, b) ==> !before(c, a),
{
    text_order_is_total(a.name@, b.name@);
    text_order_is_total(b.name@, c.name@);
    text_order_is_total(a.name@, c.name@);
    text_order_is_total(lowercase(a.name@), lowercase(b.name@));
    text_order_is_total(lowercase(b.name@), lowercase(c.name@));
    text_order_is_total(lowercase(a.name@), lowercase(c.name@));
    lemma_text_chain(a.name@, b.name@, c.name@);
    lemma_text_chain(c.name@, b.name@, a.name@);
    lemma_text_chain(lowercase(a.name@), lowercase(b.name@), lowercase(c.name@));
    lemma_text_chain(lowercase(c.name@), lowercase(b.name@), lowercase(a.name@));
}

proof fn lemma_text_chain(a: Seq<char>, b: Seq<char>, c: Seq<char>)
    ensures
        text_before(a, b) && text_before(b, c) ==> text_before(a, c),
{
    if text_before(a, b) && text_before(b, c) {
        text_order_is_transitive(a, b, c);
    }
}

/// Entries in order.
pub open spec fn in_order(s: Seq<Entry>) -> bool {
    forall|i: int, j: int| 0 <= i < j < s.len() ==> !before(#[trigger] s[j], #[trigger] s[i])
}

/// The entries of a kind and a name, in the order that they have.
pub open spec fn at_place(s: Seq<Entry>, is_dir: bool, name: Seq<char>) -> Seq<Entry>
    decreases s.len(),
{
    if s.len() == 0 {
        Seq::empty()
    } else {
        let rest = at_place(s.drop_first(), is_dir, name);
        if s[0].is_dir == is_dir && s[0].name@ == name {
            seq![s[0]] + rest
        } else {
            rest
        }
    }
}

proof fn lemma_at_place_concat(a: Seq<Entry>, b: Seq<Entry>, is_dir: bool, name: Seq<char>)
    ensures
        at_place(a + b, is_dir, name) == at_place(a, is_dir, name) + at_place(b, is_dir, name),
    decreases a.len(),
{
    if a.len() == 0 {
        assert(a + b =~= b);
        assert(at_place(a, is_dir, name) + at_place(b, is_dir, name) =~= at_place(b, is_dir, name));
    } else {
        assert((a + b).drop_first() =~= a.drop_first() + b);
        lemma_at_place_concat(a.drop_first(), b, is_dir, name);
        assert(at_place(a + b, is_dir, name) =~= at_place(a, is_dir, name) + at_place(
            b,
            is_dir,
            name,
        ));
    }
}

proof fn lemma_at_place_none(s: Seq<Entry>, is_dir: bool, name: Seq<char>)
    requires
        forall|i: int| 0 <= i < s.len() ==> (#[trigger] s[i]).is_dir != is_dir || s[i].name@ != name,
    ensures
        at_place(s, is_dir, name) == Seq::<Entry>::empty(),
    decreases s.len(),
{
    if s.len() > 0 {
        let rest = s.drop_first();
        assert forall|i: int| 0 <= i < rest.len() implies (#[trigger] rest[i]).is_dir != is_dir
            || rest[i].name@ != name by {
            assert(rest[i] == s[i + 1]);
        }
        lemma_at_place_none(rest, is_dir, name);
        assert(s[0].is_dir != is_dir || s[0].name@ != name);
    }
}

/// Putting an entry in front of all that do not come before it puts it in front
/// of all of its kind and name.
proof fn lemma_inserted(s: Seq<Entry>, p: int, e: Entry, is_dir: bool, name: Seq<char>)
    requires
        0 <= p <= s.len(),
        forall|i: int| 0 <= i < p ==> before(#[trigger] s[i], e),
    ensures
        at_place(s.insert(p, e), is_dir, name) == at_place(seq![e] + s, is_dir, name),
{
    let a = s.take(p);
    let b = s.skip(p);
    assert(a + b =~= s);
    assert(s.insert(p, e) =~= a + (seq![e] + b));
    assert(seq![e] + s =~= (seq![e] + a) + b);
    lemma_at_place_concat(a, seq![e] + b, is_dir, name);
    lemma_at_place_concat(seq![e], b, is_dir, name);
    lemma_at_place_concat(seq![e] + a, b, is_dir, name);
    lemma_at_place_concat(seq![e], a, is_dir, name);
    let pa = at_place(a, is_dir, name);
    let pe = at_place(seq![e], is_dir, name);
    let pb = at_place(b, is_dir, name);
    assert(pa + (pe + pb) =~= (pa + pe) + pb);
    if e.is_dir == is_dir && e.name@ == name {
        assert forall|i: int| 0 <= i < a.len() implies (#[trigger] a[i]).is_dir != is_dir
            || a[i].name@ != name by {
            assert(a[i] == s[i]);
            if s[i].is_dir == is_dir && s[i].name@ == name {
                text_order_is_total(s[i].name@, e.name@);
            }
        }
        lemma_at_place_none(a, is_dir, name);
        assert(pa + pe =~= pe + pa);
    } else {
        assert forall|i: int| 0 <= i < seq![e].len() implies (#[trigger] seq![e][i]).is_dir
            != is_dir || seq![e][i].name@ != name by {}
        lemma_at_place_none(seq![e], is_dir, name);
        assert(pa + pe =~= pe + pa);
    }
}

proof fn lemma_order_kept(s: Seq<Entry>, p: int, e: Entry)
    requires
        in_order(s),
        0 <= p <= s.len(),
        forall|i: int| 0 <= i < p ==> before(#[trigger] s[i], e),
        forall|i: int| p <= i < s.len() ==> !before(#[trigger] s[i], e),
    ensures
        in_order(s.insert(p, e)),
{
    let t = s.insert(p, e);
    assert forall|i: int, j: int| 0 <= i < j < t.len() implies !before(
        #[trigger] t[j],
        #[trigger] t[i],
    ) by {
        if j < p {
            assert(t[i] == s[i] && t[j] == s[j]);
        } else if j == p {
            assert(t[i] == s[i]);
            the_order_of_entries_is_total(s[i], e, e);
        } else if i < p {
            assert(t[i] == s[i] && t[j] == s[j - 1]);
        } else if i == p {
            assert(t[j] == s[j - 1]);
        } else {
            assert(t[i] == s[i - 1] && t[j] == s[j - 1]);
        }
    }
}

/// How many entries at the start of `s` come before `e`.
pub open spec fn place(s: Seq<Entry>, e: Entry) -> int
    decreases s.len(),
{
    if s.len() == 0 || !before(s[0], e) {
        0
    } else {
        1 + place(s.drop_first(), e)
    }
}

/// The entries in order: each put in front of the sorted rest, behind all that
/// come before it.
pub open spec fn sorted(s: Seq<Entry>) -> Seq<Entry>
    decreases s.len(),
{
    if s.len() == 0 {
        s
    } else {
        let rest = sorted(s.drop_first());
        rest.insert(place(rest, s[0]), s[0])
    }
}

proof fn lemma_place_is(s: Seq<Entry>, e: Entry, p: int)
    requires
        0 <= p <= s.len(),
        forall|i: int| 0 <= i < p ==> before(#[trigger] s[i], e),
        p < s.len() ==> !before(s[p], e),
    ensures
        place(s, e) == p,
    decreases s.len(),
{
    if p > 0 {
        let rest = s.drop_first();
        assert(before(s[0], e));
        assert forall|i: int| 0 <= i < p - 1 implies before(#[trigger] rest[i], e) by {
            assert(rest[i] == s[i + 1]);
        }
        if p < s.len() {
            assert(rest[p - 1] == s[p]);
        }
        lemma_place_is(rest, e, p - 1);
    }
}

/// Where an entry goes among entries in order: behind all that come before it.
fn place_for(sorted: &Vec<Entry>, e: &Entry) -> (p: usize)
    requires
        in_order(sorted@),
    ensures
        p <= sorted@.len(),
        forall|i: int| 0 <= i < p ==> before(#[trigger] sorted@[i], *e),
        forall|i: int| p <= i < sorted@.len() ==> !before(#[trigger] sorted@[i], *e),
        p == place(sorted@, *e),
{
    let mut low: usize = 0;
    let mut high: usize = sorted.len();
    while low < high
        invariant
            in_order(sorted@),
            low <= high <= sorted@.len(),
            forall|i: int| 0 <= i < low ==> before(#[trigger] sorted@[i], *e),
            forall|i: int| high <= i < sorted@.len() ==> !before(#[trigger] sorted@[i], *e),
        decreases high - low,
    {
        let mid = low + (high - low) / 2;
        if comes_before(&sorted[mid], e) {
            proof {
                assert forall|i: int| 0 <= i < mid + 1 implies before(
                    #[trigger] sorted@[i],
                    *e,
                ) by {
                    if i < mid {
                        lemma_below(sorted@[i], sorted@[mid as int], *e);
                    }
                }
            }
            low = mid + 1;
        } else {
            proof {
                assert forall|i: int| mid <= i < sorted@.len() implies !before(
                    #[trigger] sorted@[i],
                    *e,
                ) by {
                    if i > mid {
                        the_order_of_entries_is_total(*e, sorted@[mid as int], sorted@[i]);
                    }
                }
            }
            high = mid;
        }
    }
    proof {
        lemma_place_is(sorted@, *e, low as int);
    }
    low
}

/// What is not behind something that comes before `c` comes before `c` too.
proof fn lemma_below(a: Entry, b: Entry, c: Entry)
    requires
        !before(b, a),
        before(b, c),
    ensures
        before(a, c),
{
    // If `a` did not come before `c`, then `b`, which comes before `c` and not
    // before `a`, could not either.
    the_order_of_entries_is_total(c, a, b);
}

/// Sorts the entries: directories first, then by the name in lower case, then
/// by the name. Entries that tie keep their order.
pub fn sort_entries(entries: &mut Vec<Entry>)
    ensures
        final(entries)@ == sorted(old(entries)@),
        in_order(final(entries)@),
        final(entries)@.to_multiset() == old(entries)@.to_multiset(),
        forall|is_dir: bool, name: Seq<char>| #[trigger]
            at_place(final(entries)@, is_dir, name) == at_place(old(entries)@, is_dir, name),
{
    let mut out: Vec<Entry> = Vec::new();
    let ghost all = entries@;
    assert(all.skip(all.len() as int) =~= Seq::<Entry>::empty());
    while entries.len() > 0
        invariant
            entries@.len() <= all.len(),
            entries@ == all.take(entries@.len() as int),
            out@ == sorted(all.skip(entries@.len() as int)),
            in_order(out@),
            out@.to_multiset() == all.skip(entries@.len() as int).to_multiset(),
            forall|is_dir: bool, name: Seq<char>| #[trigger]
                at_place(out@, is_dir, name) == at_place(
                    all.skip(entries@.len() as int),
                    is_dir,
                    name,
                ),
        decreases entries@.len(),
    {
        let ghost n = entries@.len() as int;
        let ghost done = all.skip(n);
        let ghost was = out@;
        match entries.pop() {
            Some(e) => {
                assert(e == all[n - 1]);
                let p = place_for(&out, &e);
                out.insert(p, e);
                proof {
                    lemma_order_kept(was, p as int, e);
                    assert(all.skip(n - 1) =~= done.insert(0, e));
                    vstd::seq_lib::to_multiset_insert(done, 0, e);
                    vstd::seq_lib::to_multiset_insert(was, p as int, e);
                    assert(all.skip(n - 1) =~= seq![e] + done);
                    assert(all.skip(n - 1).drop_first() =~= done);
                    assert forall|is_dir: bool, name: Seq<char>| #[trigger]
                        at_place(out@, is_dir, name) == at_place(
                            all.skip(n - 1),
                            is_dir,
                            name,
                        ) by {
                        lemma_inserted(was, p as int, e, is_dir, name);
                        lemma_at_place_concat(seq![e], was, is_dir, name);
                        lemma_at_place_concat(seq![e], done, is_dir, name);
                        assert(at_place(was, is_dir, name) == at_place(done, is_dir, name));
                    }
                    assert(entries@ =~= all.take(n - 1));
                }
            },
            None => {},
        }
    }
    assert(all.skip(0) =~= all);
    *entries = out;
}

/// A text in a color, where there is one and it is wanted.
pub open spec fn painted(text: Seq<char>, color: Seq<char>, use_color: bool) -> Seq<char> {
    if use_color && color.len() > 0 {
        color + text + ANSI_RESET@
    } else {
        text
    }
}

/// Adds a text in a color, where there is one and it is wanted.
pub fn push_painted(row: &mut String, text: &str, color: &str, use_color: bool)
    ensures
        final(row)@ == old(row)@ + painted(text@, color@, use_color),
{
    if use_color && chars_of(color).len() > 0 {
        row.append(color);
        row.append(text);
        row.append(ANSI_RESET);
    } else {
        row.append(text);
    }
    assert(row@ =~= old(row)@ + painted(text@, color@, use_color));
}

/// The color of a language, one of six, by its hash.
pub open spec fn hue(hash: u64) -> Seq<char> {
    match hash % 6 {
        0 => "\x1b[31m"@,
        1 => "\x1b[32m"@,
        2 => "\x1b[33m"@,
        3 => "\x1b[34m"@,
        4 => "\x1b[35m"@,
        _ => "\x1b[36m"@,
    }
}

/// The color of a file's language, none where its name stands for none.
pub fn language_color(language: Option<u64>) -> (color: &'static str)
    ensures
        color@ == match language {
            Some(hash) => hue(hash),
            None => ""@,
        },
{
    match language {
        Some(hash) => match hash % 6 {
            0 => "\x1b[31m",
            1 => "\x1b[32m",
            2 => "\x1b[33m",
            3 => "\x1b[34m",
            4 => "\x1b[35m",
            _ => "\x1b[36m",
        },
        None => "",
    }
}

/// The color of a git status.
pub open spec fn status_color(c: char) -> Seq<char> {
    match c {
        'N' => "\x1b[32m"@,
        'M' => "\x1b[34m"@,
        'D' => "\x1b[31m"@,
        'U' => "\x1b[31m"@,
        'R' => "\x1b[33m"@,
        'T' => "\x1b[33m"@,
        _ => ANSI_DIM@,
    }
}

/// The color of a git status.
pub fn git_color(c: char) -> (color: &'static str)
    ensures
        color@ == status_color(c),
{
    match c {
        'N' => "\x1b[32m",
        'M' => "\x1b[34m",
        'D' => "\x1b[31m",
        'U' => "\x1b[31m",
        'R' => "\x1b[33m",
        'T' => "\x1b[33m",
        _ => ANSI_DIM,
    }
}

/// The color of an entry's name: links and directories have their own, files
/// that of their language.
pub open spec fn name_color(e: Entry) -> Seq<char> {
    if e.link_target is Some {
        ANSI_SYMLINK@
    } else if e.is_dir {
        ANSI_DIR@
    } else {
        match e.language {
            Some(hash) => hue(hash),
            None => ""@,
        }
    }
}

/// The name of an entry in a row: colored, and where a link points.
pub open spec fn name_cell(e: Entry, use_color: bool) -> Seq<char> {
    painted(e.name_shown(), name_color(e), use_color) + match e.link_target {
        Some(target) => " -> "@ + escaped(target@),
        None => Seq::empty(),
    }
}

/// Adds the name of an entry: colored, and where a link points.
pub fn push_name(row: &mut String, e: &Entry, use_color: bool)
    ensures
        final(row)@ == old(row)@ + name_cell(*e, use_color),
{
    let shown = e.shown_name();
    let color = if e.link_target.is_some() {
        ANSI_SYMLINK
    } else if e.is_dir {
        ANSI_DIR
    } else {
        language_color(e.language)
    };
    push_painted(row, shown.as_str(), color, use_color);
    if let Some(target) = &e.link_target {
        row.append(" -> ");
        row.append(escape_controls(target.as_str()).as_str());
    }
    assert(row@ =~= old(row)@ + name_cell(*e, use_color));
}

/// A text with spaces before it, as wide as its column.
pub open spec fn right_aligned(s: Seq<char>, width: int) -> Seq<char> {
    let spaces = if s.len() < width {
        (width - s.len()) as nat
    } else {
        0
    };
    Seq::new(spaces, |i: int| ' ') + s
}

/// The size of an entry in a row; directories and links show none.
pub open spec fn size_cell(e: Entry, use_color: bool) -> Seq<char> {
    if e.is_dir || e.link_target is Some {
        painted("   -"@, ANSI_DIM@, use_color)
    } else {
        right_aligned(size_text(e.size as nat), 4)
    }
}

/// The git status of an entry in a row, where the directory has any.
pub open spec fn status_cell(status: Option<(char, char)>, use_color: bool) -> Seq<char> {
    match status {
        Some((x, y)) => painted(seq![x], status_color(x), use_color) + painted(
            seq![y],
            status_color(y),
            use_color,
        ) + seq![' '],
        None => Seq::empty(),
    }
}

/// The row of an entry.
pub open spec fn row_text(e: Entry, status: Option<(char, char)>, use_color: bool) -> Seq<char> {
    size_cell(e, use_color) + seq![' '] + status_cell(status, use_color) + name_cell(e, use_color)
}

fn push_size(row: &mut String, size: u64)
    ensures
        final(row)@ == old(row)@ + right_aligned(size_text(size as nat), 4),
{
    let text = human_size(size);
    let mut n: usize = chars_of(text.as_str()).len();
    let ghost width = n;
    assert(right_aligned(Seq::<char>::empty(), 0) =~= Seq::<char>::empty());
    while n < 4
        invariant
            width <= n <= 4,
            row@ == old(row)@ + Seq::new((n - width) as nat, |i: int| ' '),
        decreases 4 - n,
    {
        row.push(' ');
        n += 1;
        assert(row@ =~= old(row)@ + Seq::new((n - width) as nat, |i: int| ' '));
    }
    row.append(text.as_str());
    assert(row@ =~= old(row)@ + right_aligned(size_text(size as nat), 4));
}

fn push_status(row: &mut String, c: char, use_color: bool)
    ensures
        final(row)@ == old(row)@ + painted(seq![c], status_color(c), use_color),
{
    let mut text = String::new();
    text.push(c);
    assert(text@ =~= seq![c]);
    push_painted(row, text.as_str(), git_color(c), use_color);
}

fn row_of(e: &Entry, status: Option<Columns>, use_color: bool) -> (row: String)
    ensures
        row@ == row_text(
            *e,
            match status {
                Some(c) => Some((c@[0], c@[1])),
                None => None,
            },
            use_color,
        ),
{
    let mut row = String::new();
    if e.is_dir || e.link_target.is_some() {
        push_painted(&mut row, "   -", ANSI_DIM, use_color);
    } else {
        push_size(&mut row, e.size);
    }
    assert(row@ =~= size_cell(*e, use_color));
    row.push(' ');
    if let Some(c) = status {
        push_status(&mut row, c[0], use_color);
        push_status(&mut row, c[1], use_color);
        row.push(' ');
    }
    push_name(&mut row, e, use_color);
    proof {
        let cells = match status {
            Some(c) => Some((c@[0], c@[1])),
            None => None,
        };
        assert(row@ =~= row_text(*e, cells, use_color));
    }
    row
}

/// The paths of entries below the listed directory.
pub open spec fn paths_below(entries: Seq<Entry>) -> Seq<Seq<char>> {
    entries.map_values(|e: Entry| e.path_below())
}

/// The rows of a listing: names only where it is plain.
pub open spec fn rows_of(
    entries: Seq<Entry>,
    status: Option<Seq<(Seq<u8>, Seq<char>)>>,
    plain: bool,
    use_color: bool,
) -> Seq<Seq<char>> {
    let s = sorted(entries);
    Seq::new(
        s.len(),
        |i: int|
            if plain {
                s[i].name_shown()
            } else {
                row_text(
                    s[i],
                    match status {
                        Some(st) => Some(columns(paths_below(s), st)[i]),
                        None => None,
                    },
                    use_color,
                )
            },
    )
}

/// The rows of the listing of a directory: names only where it is plain, and
/// otherwise the size, the git status where the directory has one, and the name
/// of each entry.
pub fn render(
    entries: Vec<Entry>,
    status: Option<&Vec<Status>>,
    plain: bool,
    use_color: bool,
) -> (rows: Vec<String>)
    ensures
        texts(rows@) == rows_of(
            entries@,
            match status {
                Some(st) => Some(statuses(st@)),
                None => None,
            },
            plain,
            use_color,
        ),
{
    let mut v = entries;
    sort_entries(&mut v);
    let ghost goal = rows_of(
        entries@,
        match status {
            Some(st) => Some(statuses(st@)),
            None => None,
        },
        plain,
        use_color,
    );
    let mut rows: Vec<String> = Vec::new();
    if plain {
        for i in 0..v.len()
            invariant
                plain,
                v@ == sorted(entries@),
                goal.len() == v@.len(),
                forall|j: int| 0 <= j < v@.len() ==> #[trigger] goal[j] == v@[j].name_shown(),
                rows@.len() == i,
                forall|j: int| 0 <= j < i ==> (#[trigger] rows@[j])@ == goal[j],
        {
            rows.push(v[i].shown_name());
        }
        assert(texts(rows@) =~= goal);
        return rows;
    }
    let cols: Option<Vec<Columns>> = match status {
        Some(st) => {
            let mut paths: Vec<String> = Vec::new();
            for i in 0..v.len()
                invariant
                    paths@.len() == i,
                    forall|j: int| 0 <= j < i ==> (#[trigger] paths@[j])@ == v@[j].path_below(),
            {
                paths.push(v[i].rel_path());
            }
            assert(texts(paths@) =~= paths_below(v@));
            Some(git_columns(&paths, st))
        },
        None => None,
    };
    for i in 0..v.len()
        invariant
            !plain,
            v@ == sorted(entries@),
            goal == rows_of(
                entries@,
                match status {
                    Some(st) => Some(statuses(st@)),
                    None => None,
                },
                plain,
                use_color,
            ),
            match (status, cols) {
                (Some(st), Some(c)) => columns_of(c@) == columns(paths_below(v@), statuses(st@)),
                (None, None) => true,
                _ => false,
            },
            rows@.len() == i,
            forall|j: int| 0 <= j < i ==> (#[trigger] rows@[j])@ == goal[j],
    {
        let cells: Option<Columns> = match &cols {
            Some(c) => {
                assert(columns_of(c@).len() == v@.len());
                assert(columns_of(c@)[i as int] == (c@[i as int]@[0], c@[i as int]@[1]));
                Some(c[i])
            },
            None => None,
        };
        rows.push(row_of(&v[i], cells, use_color));
    }
    assert(texts(rows@) =~= goal);
    rows
}

/// A shown name holds no control character, whatever the file is called.
pub proof fn a_shown_name_is_harmless(e: Entry)
    ensures
        harmless(e.name_shown()),
{
    an_escaped_text_is_harmless(e.name@);
    lemma_chain_is_harmless(texts(e.chain@));
    let chain = chain_path(all_escaped(texts(e.chain@)));
    lemma_harmless_concat(escaped(e.name@), chain);
    if e.real_dir() {
        lemma_harmless_concat(escaped(e.name@) + chain, seq!['/']);
    } else {
        lemma_harmless_concat(escaped(e.name@) + chain, Seq::empty());
    }
}

proof fn lemma_chain_is_harmless(chain: Seq<Seq<char>>)
    ensures
        harmless(chain_path(all_escaped(chain))),
    decreases chain.len(),
{
    let all = all_escaped(chain);
    if chain.len() > 0 {
        lemma_chain_is_harmless(chain.drop_last());
        assert(all.drop_last() =~= all_escaped(chain.drop_last()));
        an_escaped_text_is_harmless(chain.last());
        lemma_harmless_concat(chain_path(all.drop_last()), seq!['/']);
        lemma_harmless_concat(chain_path(all.drop_last()) + seq!['/'], all.last());
    }
}

/// The name cell of a row without color holds no control character, the place
/// that a link points to among it.
pub proof fn a_name_cell_without_color_is_harmless(e: Entry)
    ensures
        harmless(name_cell(e, false)),
{
    a_shown_name_is_harmless(e);
    if let Some(target) = e.link_target {
        reveal_strlit(" -> ");
        an_escaped_text_is_harmless(target@);
        lemma_harmless_concat(" -> "@, escaped(target@));
        lemma_harmless_concat(e.name_shown(), " -> "@ + escaped(target@));
    } else {
        lemma_harmless_concat(e.name_shown(), Seq::empty());
    }
}

/// A text without its color sequences: what stands from an escape character to
/// the next `m` is left out.
pub open spec fn without_colors(s: Seq<char>) -> Seq<char>
    decreases s.len(),
{
    if s.len() == 0 {
        s
    } else if s[0] == '\x1b' {
        let end = first_at(s, 'm');
        if 0 <= end < s.len() {
            without_colors(s.skip(end + 1))
        } else {
            Seq::empty()
        }
    } else {
        seq![s[0]] + without_colors(s.drop_first())
    }
}

/// A color sequence: an escape character, and an `m` only at its end.
spec fn is_color(c: Seq<char>) -> bool {
    &&& c.len() >= 2
    &&& c[0] == '\x1b'
    &&& c.last() == 'm'
    &&& forall|i: int| 0 <= i < c.len() - 1 ==> c[i] != 'm'
}

proof fn lemma_colors()
    ensures
        is_color(ANSI_RESET@),
        is_color(ANSI_DIM@),
        is_color(ANSI_DIR@),
        is_color(ANSI_SYMLINK@),
        ""@.len() == 0,
        forall|hash: u64| is_color(#[trigger] hue(hash)),
        forall|c: char| is_color(#[trigger] status_color(c)),
{
    reveal_strlit("\x1b[m");
    reveal_strlit("\x1b[2m");
    reveal_strlit("\x1b[1;34m");
    reveal_strlit("\x1b[31m");
    reveal_strlit("\x1b[32m");
    reveal_strlit("\x1b[33m");
    reveal_strlit("\x1b[34m");
    reveal_strlit("\x1b[35m");
    reveal_strlit("\x1b[36m");
    reveal_strlit("");
}

proof fn lemma_color_goes(c: Seq<char>, rest: Seq<char>)
    requires
        is_color(c),
    ensures
        without_colors(c + rest) == without_colors(rest),
{
    let s = c + rest;
    let end = c.len() - 1;
    assert forall|i: int| 0 <= i < end implies s[i] != 'm' by {
        assert(s[i] == c[i]);
    }
    lemma_first_at_is(s, 'm', end);
    assert(s.skip(end + 1) =~= rest);
}

proof fn lemma_text_stays(text: Seq<char>, rest: Seq<char>)
    requires
        harmless(text),
    ensures
        without_colors(text + rest) == text + without_colors(rest),
    decreases text.len(),
{
    if text.len() == 0 {
        assert(text + rest =~= rest);
        assert(text + without_colors(rest) =~= without_colors(rest));
    } else {
        let more = text.drop_first();
        assert forall|i: int| 0 <= i < more.len() implies !control(#[trigger] more[i]) by {
            assert(more[i] == text[i + 1]);
        }
        lemma_text_stays(more, rest);
        assert(!control(text[0]));
        assert((text + rest).drop_first() =~= more + rest);
        assert(seq![text[0]] + (more + without_colors(rest)) =~= text + without_colors(rest));
    }
}

proof fn lemma_paint_goes(text: Seq<char>, color: Seq<char>, use_color: bool, rest: Seq<char>)
    requires
        harmless(text),
        color.len() == 0 || is_color(color),
    ensures
        without_colors(painted(text, color, use_color) + rest) == text + without_colors(rest),
{
    if use_color && color.len() > 0 {
        lemma_colors();
        assert(painted(text, color, use_color) + rest =~= color + (text + (ANSI_RESET@ + rest)));
        lemma_color_goes(color, text + (ANSI_RESET@ + rest));
        lemma_text_stays(text, ANSI_RESET@ + rest);
        lemma_color_goes(ANSI_RESET@, rest);
    } else {
        lemma_text_stays(text, rest);
    }
}

proof fn lemma_size_cell_without_colors(e: Entry, use_color: bool, rest: Seq<char>)
    ensures
        without_colors(size_cell(e, use_color) + rest) == size_cell(e, false) + without_colors(
            rest,
        ),
{
    if e.is_dir || e.link_target is Some {
        lemma_colors();
        reveal_strlit("   -");
        lemma_paint_goes("   -"@, ANSI_DIM@, use_color, rest);
    } else {
        let text = size_text(e.size as nat);
        a_shown_size_is_harmless(e.size as nat);
        let spaces = if text.len() < 4 {
            (4 - text.len()) as nat
        } else {
            0
        };
        lemma_harmless_concat(Seq::new(spaces, |i: int| ' '), text);
        lemma_text_stays(right_aligned(text, 4), rest);
    }
}

proof fn lemma_status_cell_without_colors(
    status: Option<(char, char)>,
    use_color: bool,
    rest: Seq<char>,
)
    requires
        status matches Some((x, y)) ==> !control(x) && !control(y),
    ensures
        without_colors(status_cell(status, use_color) + rest) == status_cell(status, false)
            + without_colors(rest),
{
    match status {
        Some((x, y)) => {
            lemma_colors();
            let a = painted(seq![x], status_color(x), use_color);
            let b = painted(seq![y], status_color(y), use_color);
            assert(status_cell(status, use_color) + rest =~= a + (b + (seq![' '] + rest)));
            lemma_paint_goes(seq![x], status_color(x), use_color, b + (seq![' '] + rest));
            lemma_paint_goes(seq![y], status_color(y), use_color, seq![' '] + rest);
            lemma_text_stays(seq![' '], rest);
            assert(seq![x] + (seq![y] + (seq![' '] + without_colors(rest))) =~= status_cell(
                status,
                false,
            ) + without_colors(rest));
        },
        None => {
            assert(status_cell(status, use_color) + rest =~= rest);
            assert(status_cell(status, false) + without_colors(rest) =~= without_colors(rest));
        },
    }
}

proof fn lemma_name_cell_without_colors(e: Entry, use_color: bool)
    ensures
        without_colors(name_cell(e, use_color)) == name_cell(e, false),
{
    lemma_colors();
    a_shown_name_is_harmless(e);
    let link = match e.link_target {
        Some(target) => " -> "@ + escaped(target@),
        None => Seq::empty(),
    };
    lemma_paint_goes(e.name_shown(), name_color(e), use_color, link);
    if let Some(target) = e.link_target {
        reveal_strlit(" -> ");
        an_escaped_text_is_harmless(target@);
        lemma_harmless_concat(" -> "@, escaped(target@));
    }
    lemma_text_stays(link, Seq::empty());
    assert(link + Seq::<char>::empty() =~= link);
}

/// Color adds nothing but color: a row without its color sequences is the row
/// that is not colored, where the status letters are no control characters.
pub proof fn a_row_without_its_colors_is_the_plain_row(
    e: Entry,
    status: Option<(char, char)>,
    use_color: bool,
)
    requires
        status matches Some((x, y)) ==> !control(x) && !control(y),
    ensures
        without_colors(row_text(e, status, use_color)) == row_text(e, status, false),
{
    let name = name_cell(e, use_color);
    let state = status_cell(status, use_color);
    assert(row_text(e, status, use_color) =~= size_cell(e, use_color) + (seq![' '] + (state
        + name)));
    lemma_size_cell_without_colors(e, use_color, seq![' '] + (state + name));
    lemma_text_stays(seq![' '], state + name);
    lemma_status_cell_without_colors(status, use_color, name);
    lemma_name_cell_without_colors(e, use_color);
    assert(row_text(e, status, false) =~= size_cell(e, false) + (seq![' '] + (status_cell(
        status,
        false,
    ) + name_cell(e, false))));
}

/// Color adds nothing but color: the rows of a listing without their color
/// sequences are the rows that are not colored, where the letters of the
/// statuses are no control characters, as git's are none.
pub proof fn the_rows_without_their_colors_are_the_plain_rows(
    entries: Seq<Entry>,
    status: Option<Seq<(Seq<u8>, Seq<char>)>>,
    plain: bool,
    use_color: bool,
)
    requires
        status matches Some(st) ==> letters_show(st),
    ensures
        rows_of(entries, status, plain, use_color).map_values(|r: Seq<char>| without_colors(r))
            == rows_of(entries, status, plain, false),
{
    let s = sorted(entries);
    let colored = rows_of(entries, status, plain, use_color);
    let bare = rows_of(entries, status, plain, false);
    assert forall|i: int| 0 <= i < s.len() implies without_colors(#[trigger] colored[i])
        == bare[i] by {
        if plain {
            a_shown_name_is_harmless(s[i]);
            lemma_text_stays(s[i].name_shown(), Seq::empty());
            assert(s[i].name_shown() + Seq::<char>::empty() =~= s[i].name_shown());
        } else {
            match status {
                Some(st) => {
                    a_row_shows_letters(paths_below(s), st, i, st.len() as int);
                    a_row_without_its_colors_is_the_plain_row(
                        s[i],
                        Some(columns(paths_below(s), st)[i]),
                        use_color,
                    );
                },
                None => {
                    a_row_without_its_colors_is_the_plain_row(s[i], None, use_color);
                },
            }
        }
    }
    assert(colored.map_values(|r: Seq<char>| without_colors(r)) =~= bare);
}

proof fn lemma_place(s: Seq<Entry>, e: Entry)
    requires
        in_order(s),
    ensures
        0 <= place(s, e) <= s.len(),
        forall|i: int| 0 <= i < place(s, e) ==> before(#[trigger] s[i], e),
        forall|i: int| place(s, e) <= i < s.len() ==> !before(#[trigger] s[i], e),
    decreases s.len(),
{
    if s.len() > 0 {
        let rest = s.drop_first();
        if before(s[0], e) {
            assert forall|i: int, j: int| 0 <= i < j < rest.len() implies !before(
                #[trigger] rest[j],
                #[trigger] rest[i],
            ) by {
                assert(rest[i] == s[i + 1] && rest[j] == s[j + 1]);
            }
            lemma_place(rest, e);
            assert forall|i: int| 0 <= i < place(s, e) implies before(#[trigger] s[i], e) by {
                if i > 0 {
                    assert(s[i] == rest[i - 1]);
                }
            }
            assert forall|i: int| place(s, e) <= i < s.len() implies !before(
                #[trigger] s[i],
                e,
            ) by {
                assert(s[i] == rest[i - 1]);
            }
        } else {
            assert forall|i: int| 0 <= i < s.len() implies !before(#[trigger] s[i], e) by {
                if i > 0 {
                    the_order_of_entries_is_total(e, s[0], s[i]);
                }
            }
        }
    }
}

/// The rows of a listing are in order, and of all the entries there are.
pub proof fn the_rows_are_in_order(s: Seq<Entry>)
    ensures
        in_order(sorted(s)),
        sorted(s).to_multiset() == s.to_multiset(),
    decreases s.len(),
{
    if s.len() > 0 {
        let rest = s.drop_first();
        the_rows_are_in_order(rest);
        lemma_place(sorted(rest), s[0]);
        lemma_order_kept(sorted(rest), place(sorted(rest), s[0]), s[0]);
        vstd::seq_lib::to_multiset_insert(sorted(rest), place(sorted(rest), s[0]), s[0]);
        vstd::seq_lib::to_multiset_insert(rest, 0, s[0]);
        assert(rest.insert(0, s[0]) =~= s);
    }
}

/// Directories come first: no file stands above a directory.
pub proof fn directories_come_first(s: Seq<Entry>, i: int, j: int)
    requires
        0 <= i < j < sorted(s).len(),
        sorted(s)[j].is_dir,
    ensures
        sorted(s)[i].is_dir,
{
    the_rows_are_in_order(s);
    assert(!before(sorted(s)[j], sorted(s)[i]));
}

/// Within the directories, and within the files, the rows are in the order of
/// the names in lower case: at the first place at which two of them differ, the
/// upper row has the lesser character, or ends. `k` is how far they agree.
pub proof fn rows_of_a_kind_are_sorted_by_their_lower_case_names(
    s: Seq<Entry>,
    i: int,
    j: int,
    k: int,
)
    requires
        0 <= i < j < sorted(s).len(),
        sorted(s)[i].is_dir == sorted(s)[j].is_dir,
        0 <= k <= lowercase(sorted(s)[i].name@).len(),
        k <= lowercase(sorted(s)[j].name@).len(),
        lowercase(sorted(s)[i].name@).take(k) == lowercase(sorted(s)[j].name@).take(k),
    ensures
        ({
            let a = lowercase(sorted(s)[i].name@);
            let b = lowercase(sorted(s)[j].name@);
            &&& k == b.len() ==> k == a.len()
            &&& k < a.len() && k < b.len() ==> a[k] <= b[k]
        }),
{
    the_rows_are_in_order(s);
    let a = lowercase(sorted(s)[i].name@);
    let b = lowercase(sorted(s)[j].name@);
    assert(!before(sorted(s)[j], sorted(s)[i]));
    if !(k < a.len() && k < b.len() && a[k] == b[k]) {
        texts_are_ordered_by_their_first_difference(b, a, k);
    }
}

/// Of two rows whose names are the same but for their case, the upper one has the
/// lesser name, by the first place at which they differ.
pub proof fn names_that_differ_in_case_are_sorted_by_themselves(
    s: Seq<Entry>,
    i: int,
    j: int,
    k: int,
)
    requires
        0 <= i < j < sorted(s).len(),
        sorted(s)[i].is_dir == sorted(s)[j].is_dir,
        lowercase(sorted(s)[i].name@) == lowercase(sorted(s)[j].name@),
        0 <= k <= sorted(s)[i].name@.len(),
        k <= sorted(s)[j].name@.len(),
        sorted(s)[i].name@.take(k) == sorted(s)[j].name@.take(k),
    ensures
        ({
            let a = sorted(s)[i].name@;
            let b = sorted(s)[j].name@;
            &&& k == b.len() ==> k == a.len()
            &&& k < a.len() && k < b.len() ==> a[k] <= b[k]
        }),
{
    the_rows_are_in_order(s);
    let a = sorted(s)[i].name@;
    let b = sorted(s)[j].name@;
    assert(!before(sorted(s)[j], sorted(s)[i]));
    if !(k < a.len() && k < b.len() && a[k] == b[k]) {
        texts_are_ordered_by_their_first_difference(b, a, k);
    }
}

/// A chain is its parts, each behind a slash.
proof fn lemma_chain_is_its_pieces(chain: Seq<Seq<char>>)
    ensures
        chain_path(chain) == chain.map_values(|p: Seq<char>| seq!['/'] + p).flatten(),
    decreases chain.len(),
{
    if chain.len() > 0 {
        let front = chain.drop_last();
        lemma_chain_is_its_pieces(front);
        let front_pieces = front.map_values(|p: Seq<char>| seq!['/'] + p);
        let last = seq!['/'] + chain.last();
        assert(chain.map_values(|p: Seq<char>| seq!['/'] + p) =~= front_pieces.push(last));
        front_pieces.lemma_flatten_push(last);
        assert(chain_path(chain) =~= front_pieces.flatten() + last);
    }
}

/// The path of an entry is its name and then every part of its chain behind a
/// slash. What is shown of it is the same with each part escaped, and with a slash
/// at the end exactly where it is a directory and no link to one.
pub proof fn a_name_shows_its_whole_chain(e: Entry)
    ensures
        e.path_below() == e.name@ + texts(e.chain@).map_values(
            |p: Seq<char>| seq!['/'] + p,
        ).flatten(),
        ({
            let shown = escaped(e.name@) + texts(e.chain@).map_values(
                |p: Seq<char>| seq!['/'] + escaped(p),
            ).flatten();
            &&& e.is_dir && e.link_target is None ==> e.name_shown() == shown + seq!['/']
            &&& !(e.is_dir && e.link_target is None) ==> e.name_shown() == shown
        }),
{
    let chain = texts(e.chain@);
    lemma_chain_is_its_pieces(chain);
    lemma_chain_is_its_pieces(all_escaped(chain));
    assert(all_escaped(chain).map_values(|p: Seq<char>| seq!['/'] + p) =~= chain.map_values(
        |p: Seq<char>| seq!['/'] + escaped(p),
    ));
    let shown = escaped(e.name@) + chain.map_values(
        |p: Seq<char>| seq!['/'] + escaped(p),
    ).flatten();
    assert(shown + Seq::<char>::empty() =~= shown);
}

/// A chain goes down exactly as far as each directory holds nothing but one real
/// directory, and names each of those. `n` is how far that is.
pub proof fn a_chain_goes_down_as_far_as_it_can(looks: Seq<Look>, n: int)
    requires
        0 <= n <= looks.len(),
        forall|k: int|
            #![trigger looks[k]]
            0 <= k < n ==> looks[k].is_dir == Some(true) && !looks[k].has_more,
        n < looks.len() ==> looks[n].is_dir != Some(true) || looks[n].has_more,
    ensures
        sole_chain(looks) == Seq::new(n as nat, |k: int| looks[k].name@),
    decreases looks.len(),
{
    if n > 0 {
        let rest = looks.drop_first();
        let first = looks[0];
        assert forall|k: int| 0 <= k < n - 1 implies rest[k].is_dir == Some(true)
            && !rest[k].has_more by {
            assert(rest[k] == looks[k + 1]);
        }
        if n < looks.len() {
            assert(rest[n - 1] == looks[n]);
        }
        a_chain_goes_down_as_far_as_it_can(rest, n - 1);
        assert(sole_chain(looks) =~= Seq::new(n as nat, |k: int| looks[k].name@));
    } else {
        assert(sole_chain(looks) =~= Seq::new(n as nat, |k: int| looks[k].name@));
    }
}

/// Every entry that could be read is listed, in order, and those that are gone are
/// left out, as long as no other failure came. `pieces` are what becomes of each.
pub proof fn every_entry_that_is_there_is_listed(reads: Seq<EntryRead>, pieces: Seq<Seq<Entry>>)
    requires
        pieces.len() == reads.len(),
        forall|i: int|
            #![trigger pieces[i]]
            0 <= i < reads.len() ==> match reads[i] {
                EntryRead::Read(entry) => pieces[i] == seq![entry],
                EntryRead::Gone => pieces[i] == Seq::<Entry>::empty(),
                EntryRead::Failed(_) => false,
            },
    ensures
        entries_read(reads) == Ok::<Seq<Entry>, Seq<char>>(pieces.flatten()),
    decreases reads.len(),
{
    if reads.len() > 0 {
        let front = pieces.drop_last();
        assert forall|i: int| 0 <= i < reads.drop_last().len() implies front[i] == pieces[i]
            && reads.drop_last()[i] == reads[i] by {}
        every_entry_that_is_there_is_listed(reads.drop_last(), front);
        let last = pieces[reads.len() - 1];
        assert(front.push(last) =~= pieces);
        front.lemma_flatten_push(last);
        if let EntryRead::Read(entry) = reads.last() {
            assert(front.flatten().push(entry) =~= front.flatten() + seq![entry]);
        } else {
            assert(front.flatten() + Seq::<Entry>::empty() =~= front.flatten());
        }
    }
}

/// The first entry that failed, for another reason than being gone, fails the
/// listing with its reason.
pub proof fn the_first_failure_fails_the_listing(reads: Seq<EntryRead>, n: int)
    requires
        0 <= n < reads.len(),
        reads[n] is Failed,
        forall|i: int| 0 <= i < n ==> !(#[trigger] reads[i] is Failed),
    ensures
        entries_read(reads) == Err::<Seq<Entry>, Seq<char>>(reads[n]->Failed_0@),
{
    let pieces = Seq::new(
        n as nat,
        |i: int|
            match reads[i] {
                EntryRead::Read(entry) => seq![entry],
                _ => Seq::empty(),
            },
    );
    let before = reads.take(n);
    assert forall|i: int| 0 <= i < before.len() implies match before[i] {
        EntryRead::Read(entry) => #[trigger] pieces[i] == seq![entry],
        EntryRead::Gone => pieces[i] == Seq::<Entry>::empty(),
        EntryRead::Failed(_) => false,
    } by {
        assert(before[i] == reads[i]);
        assert(!(reads[i] is Failed));
    }
    every_entry_that_is_there_is_listed(before, pieces);
    assert(reads.take(n + 1).drop_last() =~= before);
    lemma_a_failure_stays(reads, n + 1);
}

/// A row without color is the size, right-aligned in four columns, or a hyphen
/// there for a directory or a link; the two status characters, where there is git;
/// and the name, with where a link points. One space stands between them.
pub proof fn what_a_row_says(e: Entry, x: char, y: char)
    ensures
        ({
            let text = size_text(e.size as nat);
            let pad = if text.len() < 4 {
                Seq::new((4 - text.len()) as nat, |i: int| ' ')
            } else {
                Seq::empty()
            };
            let size = if e.is_dir || e.link_target is Some {
                seq![' ', ' ', ' ', '-']
            } else {
                pad + text
            };
            let name = match e.link_target {
                Some(target) => e.name_shown() + seq![' ', '-', '>', ' '] + escaped(target@),
                None => e.name_shown(),
            };
            &&& row_text(e, None, false) == size + seq![' '] + name
            &&& row_text(e, Some((x, y)), false) == size + seq![' ', x, y, ' '] + name
        }),
{
    reveal_strlit("   -");
    reveal_strlit(" -> ");
    assert("   -"@ =~= seq![' ', ' ', ' ', '-']);
    assert(" -> "@ =~= seq![' ', '-', '>', ' ']);
    let text = size_text(e.size as nat);
    let pad = if text.len() < 4 {
        Seq::new((4 - text.len()) as nat, |i: int| ' ')
    } else {
        Seq::empty()
    };
    let size = if e.is_dir || e.link_target is Some {
        seq![' ', ' ', ' ', '-']
    } else {
        pad + text
    };
    let name = match e.link_target {
        Some(target) => e.name_shown() + seq![' ', '-', '>', ' '] + escaped(target@),
        None => e.name_shown(),
    };
    assert(size_cell(e, false) =~= size);
    assert(name_cell(e, false) =~= name);
    assert(row_text(e, None, false) =~= size + seq![' '] + name);
    assert(row_text(e, Some((x, y)), false) =~= size + seq![' ', x, y, ' '] + name);
}

/// The colors of a row: what is no size is dim, each status character has its own
/// color, and a name has the color of a link, of a directory, or of its language,
/// and none where it has no language; each is reset behind what it colors.
pub proof fn the_colors_of_a_row(e: Entry, x: char, y: char)
    ensures
        ({
            let esc = '\x1b';
            let reset = seq![esc, '[', 'm'];
            let dim = seq![esc, '[', '2', 'm'];
            let hue_of = |n: int| seq![esc, '[', '3', (('1' as u32 + n) as u8) as char, 'm'];
            let of_status = |c: char|
                if c == 'N' {
                    hue_of(1)
                } else if c == 'M' {
                    hue_of(3)
                } else if c == 'D' || c == 'U' {
                    hue_of(0)
                } else if c == 'R' || c == 'T' {
                    hue_of(2)
                } else {
                    dim
                };
            let size = if e.is_dir || e.link_target is Some {
                dim + seq![' ', ' ', ' ', '-'] + reset
            } else {
                size_cell(e, false)
            };
            let name = if e.link_target is Some {
                hue_of(5) + e.name_shown() + reset + seq![' ', '-', '>', ' '] + escaped(
                    e.link_target->0@,
                )
            } else if e.is_dir {
                seq![esc, '[', '1', ';', '3', '4', 'm'] + e.name_shown() + reset
            } else if e.language is Some {
                hue_of((e.language->0 % 6) as int) + e.name_shown() + reset
            } else {
                e.name_shown()
            };
            &&& row_text(e, Some((x, y)), true) == size + seq![' '] + (of_status(x) + seq![x]
                + reset) + (of_status(y) + seq![y] + reset) + seq![' '] + name
            &&& row_text(e, None, true) == size + seq![' '] + name
        }),
{
    reveal_strlit("");
    reveal_strlit("\x1b[m");
    reveal_strlit("\x1b[2m");
    reveal_strlit("\x1b[1;34m");
    reveal_strlit("\x1b[31m");
    reveal_strlit("\x1b[32m");
    reveal_strlit("\x1b[33m");
    reveal_strlit("\x1b[34m");
    reveal_strlit("\x1b[35m");
    reveal_strlit("\x1b[36m");
    reveal_strlit("   -");
    reveal_strlit(" -> ");
    let esc = '\x1b';
    let reset = seq![esc, '[', 'm'];
    let dim = seq![esc, '[', '2', 'm'];
    let hue_of = |n: int| seq![esc, '[', '3', (('1' as u32 + n) as u8) as char, 'm'];
    assert(ANSI_RESET@ =~= reset);
    assert(ANSI_DIM@ =~= dim);
    assert(ANSI_DIR@ =~= seq![esc, '[', '1', ';', '3', '4', 'm']);
    assert("\x1b[31m"@ =~= hue_of(0));
    assert("\x1b[32m"@ =~= hue_of(1));
    assert("\x1b[33m"@ =~= hue_of(2));
    assert("\x1b[34m"@ =~= hue_of(3));
    assert("\x1b[35m"@ =~= hue_of(4));
    assert("\x1b[36m"@ =~= hue_of(5));
    assert("   -"@ =~= seq![' ', ' ', ' ', '-']);
    assert(" -> "@ =~= seq![' ', '-', '>', ' ']);
    let of_status = |c: char|
        if c == 'N' {
            hue_of(1)
        } else if c == 'M' {
            hue_of(3)
        } else if c == 'D' || c == 'U' {
            hue_of(0)
        } else if c == 'R' || c == 'T' {
            hue_of(2)
        } else {
            dim
        };
    let size = if e.is_dir || e.link_target is Some {
        dim + seq![' ', ' ', ' ', '-'] + reset
    } else {
        size_cell(e, false)
    };
    let name = if e.link_target is Some {
        hue_of(5) + e.name_shown() + reset + seq![' ', '-', '>', ' '] + escaped(e.link_target->0@)
    } else if e.is_dir {
        seq![esc, '[', '1', ';', '3', '4', 'm'] + e.name_shown() + reset
    } else if e.language is Some {
        hue_of((e.language->0 % 6) as int) + e.name_shown() + reset
    } else {
        e.name_shown()
    };
    assert(size_cell(e, true) =~= size);
    assert(status_color(x) =~= of_status(x));
    assert(status_color(y) =~= of_status(y));
    assert(name_cell(e, true) =~= name);
    assert(row_text(e, None, true) =~= size + seq![' '] + name);
    assert(row_text(e, Some((x, y)), true) =~= size + seq![' '] + (of_status(x) + seq![x] + reset) + (
    of_status(y) + seq![y] + reset) + seq![' '] + name);
}

/// A listing has one row for each entry. A plain one shows the names alone, and
/// any other one the row of each entry, with the two status characters that the
/// git column has at its place, where there is git.
pub proof fn a_listing_has_a_row_for_each_entry(
    entries: Seq<Entry>,
    status: Seq<(Seq<u8>, Seq<char>)>,
    use_color: bool,
    i: int,
)
    requires
        0 <= i < entries.len(),
    ensures
        ({
            let s = sorted(entries);
            let paths = s.map_values(|e: Entry| e.path_below());
            &&& s.len() == entries.len()
            &&& rows_of(entries, None, true, use_color).len() == entries.len()
            &&& rows_of(entries, None, false, use_color).len() == entries.len()
            &&& rows_of(entries, Some(status), false, use_color).len() == entries.len()
            &&& rows_of(entries, None, true, use_color)[i] == s[i].name_shown()
            &&& rows_of(entries, Some(status), true, use_color)[i] == s[i].name_shown()
            &&& rows_of(entries, None, false, use_color)[i] == row_text(s[i], None, use_color)
            &&& rows_of(entries, Some(status), false, use_color)[i] == row_text(
                s[i],
                Some(columns(paths, status)[i]),
                use_color,
            )
        }),
{
    the_rows_are_in_order(entries);
    broadcast use vstd::seq_lib::group_to_multiset_ensures;

    let s = sorted(entries);
    assert(s.to_multiset().len() == s.len());
    assert(entries.to_multiset().len() == entries.len());
    assert(s.map_values(|e: Entry| e.path_below()) =~= paths_below(s));
}

} // verus!
